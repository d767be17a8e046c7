//! End-to-end scenarios over a small table, and unit checks of the
//! engine's pieces.

use locustdb::codec::Codec;
use locustdb::dispatch::{dispatch, productions_aligned, Declaration, Production};
use locustdb::encoding::{DispatchArg, EncodingType, TypeClass};
use locustdb::error::QueryError;
use locustdb::eval::to_year;
use locustdb::expr::{Aggregator, Expr, Func1Type, Func2Type, LimitClause};
use locustdb::inner::{InnerLocustDB, Options, Task};
use locustdb::query::{ColumnInfo, Query};
use locustdb::sort::{sort_indices, top_n};
use locustdb::store::{Lru, Partition};
use locustdb::table::Table;
use locustdb::type_conversion::{cast_val, Cast};
use locustdb::val::RawVal;

fn ints(vals: &[i64]) -> Vec<RawVal> {
    vals.iter().map(|v| RawVal::Int(*v)).collect()
}

fn strs(vals: &[&str]) -> Vec<RawVal> {
    vals.iter().map(|v| RawVal::Str((*v).to_owned())).collect()
}

/// The scenario table `t(a int, b int, s str)` with rows
/// (1,10,"x"), (2,20,"y"), (1,30,"x"), (3,40,"z").
fn t_partition() -> Vec<(String, Vec<RawVal>)> {
    vec![
        ("a".to_owned(), ints(&[1, 2, 1, 3])),
        ("b".to_owned(), ints(&[10, 20, 30, 40])),
        ("s".to_owned(), strs(&["x", "y", "x", "z"])),
    ]
}

fn col(name: &str) -> Expr {
    Expr::ColName(name.to_owned())
}

fn int_const(v: i64) -> Expr {
    Expr::Const(RawVal::Int(v))
}

fn named(expr: Expr, name: &str) -> ColumnInfo {
    ColumnInfo { expr, name: Some(name.to_owned()) }
}

fn limit(limit: u64) -> LimitClause {
    LimitClause { limit, offset: 0 }
}

fn query(select: Vec<ColumnInfo>, order_by: Vec<(Expr, bool)>, lim: u64) -> Query {
    Query {
        select,
        table: "t".to_owned(),
        filter: int_const(1),
        order_by,
        limit: limit(lim),
    }
}

fn run(q: &Query, partitions: Vec<Vec<(String, Vec<RawVal>)>>) -> locustdb::db::QueryResults {
    q.run_on_partitions(&partitions).expect("query should succeed")
}

#[test]
fn sum_by_group() {
    let q = query(
        vec![
            named(col("a"), "a"),
            named(Expr::Aggregate(Aggregator::SumI64, Box::new(col("b"))), "SUM(b)"),
        ],
        vec![],
        100,
    );
    let res = run(&q, vec![t_partition()]);
    assert_eq!(res.colnames, vec!["a".to_owned(), "SUM(b)".to_owned()]);
    let expected = vec![
        vec![RawVal::Int(1), RawVal::Int(40)],
        vec![RawVal::Int(2), RawVal::Int(20)],
        vec![RawVal::Int(3), RawVal::Int(40)],
    ];
    // Groups leave sorted ascending by key.
    assert_eq!(res.rows, expected);
}

#[test]
fn sum_by_group_ordered_limited() {
    let q = query(
        vec![
            named(col("a"), "a"),
            named(Expr::Aggregate(Aggregator::SumI64, Box::new(col("b"))), "SUM(b)"),
        ],
        vec![(Expr::Aggregate(Aggregator::SumI64, Box::new(col("b"))), true)],
        2,
    );
    let res = run(&q, vec![t_partition()]);
    assert_eq!(
        res.rows,
        vec![
            vec![RawVal::Int(1), RawVal::Int(40)],
            vec![RawVal::Int(3), RawVal::Int(40)],
        ]
    );
}

#[test]
fn count_where_group_str() {
    let q = Query {
        select: vec![
            named(col("s"), "s"),
            named(Expr::Aggregate(Aggregator::Count, Box::new(int_const(1))), "COUNT(1)"),
        ],
        table: "t".to_owned(),
        filter: Expr::Func2(Func2Type::LT, Box::new(col("a")), Box::new(int_const(3))),
        order_by: vec![],
        limit: limit(100),
    };
    let res = run(&q, vec![t_partition()]);
    let expected = vec![
        vec![RawVal::Str("x".to_owned()), RawVal::Int(2)],
        vec![RawVal::Str("y".to_owned()), RawVal::Int(1)],
    ];
    // Groups leave sorted ascending by key.
    assert_eq!(res.rows, expected);
}

#[test]
fn select_star_limit_zero() {
    let q = Query {
        select: vec![ColumnInfo { expr: col("*"), name: None }],
        table: "t".to_owned(),
        filter: int_const(1),
        order_by: vec![],
        limit: limit(0),
    };
    assert!(q.is_select_star());
    let colnames = vec!["a".to_owned(), "b".to_owned(), "s".to_owned()];
    let expanded = q.expand_select_star(&colnames);
    let res = run(&expanded, vec![t_partition()]);
    assert_eq!(res.colnames, colnames);
    assert!(res.rows.is_empty());
}

#[test]
fn to_year_column() {
    let q = Query {
        select: vec![named(
            Expr::Func1(Func1Type::ToYear, Box::new(col("ts"))),
            "TO_YEAR(ts)",
        )],
        table: "u".to_owned(),
        filter: int_const(1),
        order_by: vec![],
        limit: limit(100),
    };
    let partition = vec![("ts".to_owned(), ints(&[1577836800, 1609459200]))];
    let res = run(&q, vec![partition]);
    assert_eq!(res.colnames, vec!["TO_YEAR(ts)".to_owned()]);
    assert_eq!(res.rows, vec![vec![RawVal::Int(2020)], vec![RawVal::Int(2021)]]);
}

#[test]
fn group_determinism_partition_order() {
    let q = query(
        vec![
            named(col("a"), "a"),
            named(Expr::Aggregate(Aggregator::SumI64, Box::new(col("b"))), "SUM(b)"),
        ],
        vec![],
        100,
    );
    let p1 = vec![
        ("a".to_owned(), ints(&[1, 2])),
        ("b".to_owned(), ints(&[10, 20])),
    ];
    let p2 = vec![
        ("a".to_owned(), ints(&[1, 3])),
        ("b".to_owned(), ints(&[30, 40])),
    ];
    let res_ab = run(&q, vec![p1.clone(), p2.clone()]);
    let res_ba = run(&q, vec![p2, p1]);
    // The merged groups leave sorted ascending by key, so the two orders
    // give identical rows, not merely the same multiset.
    let expected = vec![
        vec![RawVal::Int(1), RawVal::Int(40)],
        vec![RawVal::Int(2), RawVal::Int(20)],
        vec![RawVal::Int(3), RawVal::Int(40)],
    ];
    assert_eq!(res_ab.rows, expected);
    assert_eq!(res_ba.rows, expected);
}

#[test]
fn ingest_then_count() {
    let mut db = InnerLocustDB::new(&vec![], &Options::default());
    db.ingest("metrics", vec![("a".to_owned(), RawVal::Int(1))]);
    let partitions = db.snapshot("metrics").expect("table should exist");
    let mut data = Vec::new();
    for p in &partitions {
        data.push(p.resident_columns().expect("columns should be resident"));
    }
    let q = Query {
        select: vec![named(
            Expr::Aggregate(Aggregator::Count, Box::new(int_const(1))),
            "COUNT(1)",
        )],
        table: "metrics".to_owned(),
        filter: int_const(1),
        order_by: vec![],
        limit: limit(100),
    };
    let res = q.run_on_partitions(&data).expect("query should succeed");
    assert_eq!(res.rows, vec![vec![RawVal::Int(1)]]);
}

#[test]
fn ingest_seals_batches() {
    let mut table = Table::new(2, "events");
    let mut lru = Lru::default();
    table.ingest(vec![("a".to_owned(), RawVal::Int(1))], &mut lru);
    assert_eq!(table.partitions.len(), 0);
    assert_eq!(table.buffer.row_count(), 1);
    table.ingest(vec![("a".to_owned(), RawVal::Int(2))], &mut lru);
    assert_eq!(table.partitions.len(), 1);
    assert_eq!(table.partitions[0].id, 0);
    assert_eq!(table.buffer.row_count(), 0);
    table.ingest(vec![("a".to_owned(), RawVal::Int(3))], &mut lru);
    table.ingest(vec![("a".to_owned(), RawVal::Int(4))], &mut lru);
    assert_eq!(table.partitions.len(), 2);
    assert_eq!(table.partitions[1].id, 1);
    assert!(table.buffer.row_count() < 2);
}

#[test]
fn normalize_rejects_nested_aggregates() {
    let q = query(
        vec![named(
            Expr::Aggregate(
                Aggregator::SumI64,
                Box::new(Expr::Aggregate(Aggregator::SumI64, Box::new(col("b")))),
            ),
            "SUM(SUM(b))",
        )],
        vec![],
        100,
    );
    match q.normalize() {
        Err(QueryError::TypeError(_)) => {}
        other => panic!("expected a type error, got {:?}", other),
    }
}

#[test]
fn normalize_splits_aggregate_and_order() {
    let q = query(
        vec![
            named(col("a"), "a"),
            named(Expr::Aggregate(Aggregator::SumI64, Box::new(col("b"))), "SUM(b)"),
        ],
        vec![(Expr::Aggregate(Aggregator::SumI64, Box::new(col("b"))), true)],
        2,
    );
    let (primary, post) = q.normalize().expect("normalization should succeed");
    assert!(primary.order_by.is_empty());
    assert!(!primary.aggregate.is_empty());
    let post = post.expect("a post pass is required");
    assert!(post.aggregate.is_empty());
    assert_eq!(post.order_by.len(), 1);
    assert_eq!(post.limit.limit, 2);
}

#[test]
fn codec_offset_round_trip() {
    let codec = Codec::Offset(100);
    let data = ints(&[100, 150, i64::MIN, -7]);
    let encoded = codec.encode(&data).expect("offset encodes integers");
    let decoded = codec.decode(&encoded).expect("decoding should succeed");
    assert_eq!(decoded, data);
}

#[test]
fn codec_dict_round_trip() {
    let codec = Codec::Dict(vec!["x".to_owned(), "y".to_owned(), "z".to_owned()]);
    let data = strs(&["z", "x", "x", "y"]);
    let encoded = codec.encode(&data).expect("dictionary covers the values");
    assert_eq!(encoded, ints(&[2, 0, 0, 1]));
    let decoded = codec.decode(&encoded).expect("decoding should succeed");
    assert_eq!(decoded, data);
    let missing = codec.encode(&strs(&["w"]));
    assert!(missing.is_none());
}

#[test]
fn cast_matrix_truncates_and_widens() {
    assert_eq!(Cast::<u8>::cast(300u16), 44u8);
    assert_eq!(Cast::<u8>::cast(Cast::<u8>::cast(300u16)), 44u8);
    assert_eq!(Cast::<u16>::cast(7u8), 7u16);
    assert_eq!(Cast::<i64>::cast(u64::MAX), -1i64);
    assert_eq!(Cast::<u64>::cast(-1i64), u64::MAX);
    assert_eq!(Cast::<RawVal>::cast(5u32), RawVal::Int(5));
}

#[test]
fn cast_val_is_idempotent() {
    let once = cast_val(&RawVal::Int(300), EncodingType::U8).expect("integers cast to U8");
    assert_eq!(once, RawVal::Int(44));
    let twice = cast_val(&once, EncodingType::U8).expect("a cast value casts again");
    assert_eq!(twice, once);
    assert!(cast_val(&RawVal::Str("x".to_owned()), EncodingType::U8).is_none());
}

#[test]
fn top_n_matches_sort_truncate() {
    let ranking = ints(&[5, 1, 4, 1, 3]);
    let full = sort_indices(&ranking, false);
    assert_eq!(full, vec![1, 3, 4, 2, 0]);
    let top = top_n(&ranking, 3, false);
    assert_eq!(top, full[..3].to_vec());
    let top_desc = top_n(&ranking, 2, true);
    let full_desc = sort_indices(&ranking, true);
    assert_eq!(top_desc, full_desc[..2].to_vec());
}

#[test]
fn dispatch_covers_productions() {
    let productions = vec![
        Production {
            declarations: vec![Declaration {
                variables: vec!["lhs".to_owned(), "rhs".to_owned()],
                class: TypeClass::Integer,
            }],
        },
        Production {
            declarations: vec![Declaration {
                variables: vec!["lhs".to_owned(), "rhs".to_owned()],
                class: TypeClass::Str,
            }],
        },
    ];
    assert!(productions_aligned(&productions));
    let name = "equals".to_owned();
    let ints_binding = vec![vec![
        DispatchArg::Tag(EncodingType::U32),
        DispatchArg::Tag(EncodingType::U32),
    ]];
    match dispatch(&name, &productions, &ints_binding) {
        Ok(i) => assert_eq!(i, 0),
        other => panic!("expected the first production, got {:?}", other),
    }
    let strs_binding = vec![vec![
        DispatchArg::Tag(EncodingType::Str),
        DispatchArg::Tag(EncodingType::Str),
    ]];
    match dispatch(&name, &productions, &strs_binding) {
        Ok(i) => assert_eq!(i, 1),
        other => panic!("expected the second production, got {:?}", other),
    }
    let mismatched = vec![vec![
        DispatchArg::Tag(EncodingType::U32),
        DispatchArg::Tag(EncodingType::Str),
    ]];
    match dispatch(&name, &productions, &mismatched) {
        Err(QueryError::FatalError(msg)) => {
            assert!(msg.contains("Expected identical types"), "message: {}", msg)
        }
        other => panic!("expected the same-tag error, got {:?}", other),
    }
    let unsupported = vec![vec![
        DispatchArg::Tag(EncodingType::F64),
        DispatchArg::Tag(EncodingType::F64),
    ]];
    match dispatch(&name, &productions, &unsupported) {
        Err(QueryError::FatalError(msg)) => {
            assert!(msg.contains("not supported for type"), "message: {}", msg)
        }
        other => panic!("expected the fallback error, got {:?}", other),
    }
}

#[test]
fn lru_orders_by_recency() {
    let mut lru = Lru::default();
    lru.put(0, "a".to_owned());
    lru.put(0, "b".to_owned());
    lru.touch(0, &"a".to_owned());
    let victim = lru.evict().expect("two keys are held");
    assert_eq!(victim, (0, "b".to_owned()));
    let victim = lru.evict().expect("one key is left");
    assert_eq!(victim, (0, "a".to_owned()));
    assert!(lru.evict().is_none());
}

#[test]
fn evict_reduces_heap() {
    let mut table = Table::new(2, "events");
    let mut lru = Lru::default();
    table.ingest(
        vec![("a".to_owned(), RawVal::Int(1)), ("b".to_owned(), RawVal::Int(2))],
        &mut lru,
    );
    table.ingest(
        vec![("a".to_owned(), RawVal::Int(3)), ("b".to_owned(), RawVal::Int(4))],
        &mut lru,
    );
    let before = table.heap_size_of_children();
    let key = lru.evict().expect("sealing put the column keys");
    let freed = table.evict(&key);
    let after = table.heap_size_of_children();
    assert!(after <= before);
    assert_eq!(before, after + freed);
}

#[test]
fn evict_frees_exactly_the_named_column() {
    let mut table = Table::new(2, "events");
    let mut lru = Lru::default();
    table.ingest(
        vec![("a".to_owned(), RawVal::Int(1)), ("b".to_owned(), RawVal::Int(2))],
        &mut lru,
    );
    table.ingest(
        vec![("a".to_owned(), RawVal::Int(3)), ("b".to_owned(), RawVal::Int(4))],
        &mut lru,
    );
    // The sealed partition holds two rows per column: eight bytes a cell.
    let freed = table.evict(&(0, "a".to_owned()));
    assert_eq!(freed, 16);
    // The named column is non-resident; the other is untouched.
    assert!(table.partitions[0].resident_columns().is_none());
    // Evicting a key whose partition is absent frees nothing.
    assert_eq!(table.evict(&(7, "a".to_owned())), 0);
    // Evicting an already evicted column frees nothing more.
    assert_eq!(table.evict(&(0, "a".to_owned())), 0);
}

#[test]
fn stats_sums_bytes_per_column_name() {
    let mut table = Table::new(2, "events");
    let mut lru = Lru::default();
    table.ingest(
        vec![("a".to_owned(), RawVal::Int(1)), ("b".to_owned(), RawVal::Int(2))],
        &mut lru,
    );
    table.ingest(
        vec![("a".to_owned(), RawVal::Int(3)), ("b".to_owned(), RawVal::Int(4))],
        &mut lru,
    );
    table.ingest(
        vec![("a".to_owned(), RawVal::Int(5)), ("b".to_owned(), RawVal::Int(6))],
        &mut lru,
    );
    table.ingest(
        vec![("a".to_owned(), RawVal::Int(7)), ("b".to_owned(), RawVal::Int(8))],
        &mut lru,
    );
    // Two sealed partitions of two rows each: 32 bytes per column name,
    // keyed in first-occurrence order.
    let stats = table.stats();
    assert_eq!(
        stats.size_per_column,
        vec![("a".to_owned(), 32), ("b".to_owned(), 32)]
    );
}

#[test]
fn restore_of_wrong_length_is_ignored() {
    let md = locustdb::table::PartitionMetadata {
        id: 3,
        tablename: "cold".to_owned(),
        len: 2,
        columns: vec!["a".to_owned()],
    };
    let tables = Table::load_table_metadata(4096, &vec![md]);
    let mut table = tables.into_iter().next().unwrap();
    table.restore(
        3,
        &locustdb::store::Column { name: "a".to_owned(), data: ints(&[5, 6, 7]) },
    );
    assert!(table.partitions[0].resident_columns().is_none());
    table.restore(
        3,
        &locustdb::store::Column { name: "a".to_owned(), data: ints(&[5, 6]) },
    );
    let cols = table.partitions[0].resident_columns().expect("restored");
    assert_eq!(cols[0].1, ints(&[5, 6]));
}

#[test]
fn to_year_exact_values() {
    assert_eq!(to_year(0), 1970);
    assert_eq!(to_year(946684800), 2000);
    assert_eq!(to_year(951782400), 2000);
    assert_eq!(to_year(1577836799), 2019);
    assert_eq!(to_year(1577836800), 2020);
    assert_eq!(to_year(1609459200), 2021);
}

#[test]
fn missing_column_names_are_fatal() {
    let q = query(vec![ColumnInfo { expr: col("a"), name: None }], vec![], 100);
    let (primary, _) = q.normalize().expect("normalization should succeed");
    match primary.result_column_names() {
        Err(QueryError::FatalError(_)) => {}
        other => panic!("expected a fatal error, got {:?}", other),
    }
}

#[test]
fn order_by_string_sorts_lexicographically() {
    let q = query(vec![named(col("s"), "s")], vec![(col("s"), false)], 100);
    let res = run(&q, vec![t_partition()]);
    assert_eq!(
        res.rows,
        vec![
            vec![RawVal::Str("x".to_owned())],
            vec![RawVal::Str("x".to_owned())],
            vec![RawVal::Str("y".to_owned())],
            vec![RawVal::Str("z".to_owned())],
        ]
    );
}

#[test]
fn order_by_string_descending() {
    let q = query(vec![named(col("s"), "s")], vec![(col("s"), true)], 100);
    let res = run(&q, vec![t_partition()]);
    assert_eq!(
        res.rows,
        vec![
            vec![RawVal::Str("z".to_owned())],
            vec![RawVal::Str("y".to_owned())],
            vec![RawVal::Str("x".to_owned())],
            vec![RawVal::Str("x".to_owned())],
        ]
    );
}

#[test]
fn aggregate_groups_leave_sorted_by_key() {
    let q = query(
        vec![
            named(col("a"), "a"),
            named(Expr::Aggregate(Aggregator::Count, Box::new(col("a"))), "COUNT(a)"),
        ],
        vec![],
        100,
    );
    // First occurrences are 3, 1, 2; the output sorts ascending by key.
    let partition = vec![("a".to_owned(), ints(&[3, 1, 2, 1]))];
    let res = run(&q, vec![partition]);
    assert_eq!(
        res.rows,
        vec![
            vec![RawVal::Int(1), RawVal::Int(2)],
            vec![RawVal::Int(2), RawVal::Int(1)],
            vec![RawVal::Int(3), RawVal::Int(1)],
        ]
    );
}

#[test]
fn unknown_column_is_type_error() {
    let q = query(vec![named(col("missing"), "missing")], vec![], 100);
    match q.run_on_partitions(&vec![t_partition()]) {
        Err(QueryError::TypeError(_)) => {}
        other => panic!("expected a type error, got {:?}", other),
    }
}

#[test]
fn buffer_pads_missing_columns_with_nulls() {
    let mut table = Table::new(100, "pad");
    let mut lru = Lru::default();
    table.ingest(vec![("a".to_owned(), RawVal::Int(1))], &mut lru);
    table.ingest(vec![("b".to_owned(), RawVal::Int(2))], &mut lru);
    let cols = &table.buffer.cols;
    let a = cols.iter().find(|c| c.0 == "a").expect("column a exists");
    let b = cols.iter().find(|c| c.0 == "b").expect("column b exists");
    assert_eq!(a.1, vec![RawVal::Int(1), RawVal::Null]);
    assert_eq!(b.1, vec![RawVal::Null, RawVal::Int(2)]);
}

#[test]
fn await_task_skips_completed_and_keeps_multithreaded() {
    let mut db = InnerLocustDB::new(&vec![], &Options::default());
    db.schedule(Task { task_id: 1, completed: true, multithreaded: false });
    db.schedule(Task { task_id: 2, completed: false, multithreaded: true });
    db.schedule(Task { task_id: 3, completed: false, multithreaded: false });
    let t = db.await_task().expect("an unfinished task is queued");
    assert_eq!(t.task_id, 2);
    // The multithreaded task stays at the front for other workers.
    let t = db.await_task().expect("the multithreaded task is still queued");
    assert_eq!(t.task_id, 2);
    db.drop_pending_tasks();
    assert!(db.await_task().is_none());
    db.stop();
    assert!(!db.running);
}

#[test]
fn snapshot_includes_live_buffer() {
    let mut table = Table::new(100, "live");
    let mut lru = Lru::default();
    table.ingest(vec![("a".to_owned(), RawVal::Int(7))], &mut lru);
    let parts = table.snapshot();
    assert_eq!(parts.len(), 1);
    assert_eq!(parts[0].id, u64::MAX);
    assert_eq!(parts[0].len, 1);
}

#[test]
fn batch_size_overrides_for_meta_tables() {
    assert_eq!(Table::new(4096, "_meta_tables").batch_size, 1);
    assert_eq!(Table::new(4096, "_meta_queries").batch_size, 10);
    assert_eq!(Table::new(4096, "ordinary").batch_size, 4096);
    let mut db = InnerLocustDB::new(&vec![], &Options::default());
    db.ingest("ordinary", vec![("a".to_owned(), RawVal::Int(1))]);
    // Creating a user table records (timestamp, name) in the registry's
    // metadata table, which seals immediately at batch size one.
    let meta = db.snapshot("_meta_tables").expect("the registry table exists");
    assert!(!meta.is_empty());
}

#[test]
fn error_messages_are_preserved() {
    let e = QueryError::ParseError("bad token".to_owned());
    assert_eq!(e.message(), "bad token");
    assert!(!e.is_not_implemented());
    assert!(QueryError::NotImplemented("joins".to_owned()).is_not_implemented());
}

#[test]
fn nonresident_partition_round_trip() {
    let md = locustdb::table::PartitionMetadata {
        id: 9,
        tablename: "cold".to_owned(),
        len: 2,
        columns: vec!["a".to_owned()],
    };
    let tables = Table::load_table_metadata(4096, &vec![md]);
    assert_eq!(tables.len(), 1);
    assert_eq!(tables[0].partitions.len(), 1);
    assert_eq!(tables[0].partitions[0].id, 9);
    assert!(tables[0].partitions[0].resident_columns().is_none());
    let mut table = tables.into_iter().next().unwrap();
    table.restore(
        9,
        &locustdb::store::Column { name: "a".to_owned(), data: ints(&[5, 6]) },
    );
    let cols = table.partitions[0].resident_columns().expect("restored");
    assert_eq!(cols[0].1, ints(&[5, 6]));
}

#[test]
fn partition_from_buffer_keeps_columns() {
    let mut table = Table::new(100, "seal");
    let mut lru = Lru::default();
    table.ingest(vec![("a".to_owned(), RawVal::Int(1))], &mut lru);
    let buffer = std::mem::replace(&mut table.buffer, locustdb::store::Buffer::new());
    let (p, keys) = Partition::from_buffer(0, buffer);
    assert_eq!(p.len, 1);
    assert_eq!(keys, vec![(0, "a".to_owned())]);
    let cols = p.resident_columns().expect("all resident");
    assert_eq!(cols[0].1, ints(&[1]));
}

#[test]
fn arithmetic_projection() {
    let q = query(
        vec![named(
            Expr::Func2(
                Func2Type::Add,
                Box::new(col("a")),
                Box::new(Expr::Func2(
                    Func2Type::Multiply,
                    Box::new(col("b")),
                    Box::new(int_const(2)),
                )),
            ),
            "a + b * 2",
        )],
        vec![],
        100,
    );
    let res = run(&q, vec![t_partition()]);
    assert_eq!(
        res.rows,
        vec![
            vec![RawVal::Int(21)],
            vec![RawVal::Int(42)],
            vec![RawVal::Int(61)],
            vec![RawVal::Int(83)],
        ]
    );
}

#[test]
fn limit_and_offset_window() {
    let q = Query {
        select: vec![named(col("b"), "b")],
        table: "t".to_owned(),
        filter: int_const(1),
        order_by: vec![(col("b"), false)],
        limit: LimitClause { limit: 2, offset: 1 },
    };
    let res = run(&q, vec![t_partition()]);
    assert_eq!(res.rows, vec![vec![RawVal::Int(20)], vec![RawVal::Int(30)]]);
}

#[test]
fn division_by_zero_is_an_error() {
    let q = query(
        vec![named(
            Expr::Func2(Func2Type::Divide, Box::new(col("a")), Box::new(int_const(0))),
            "a / 0",
        )],
        vec![],
        100,
    );
    match q.run_on_partitions(&vec![t_partition()]) {
        Err(QueryError::TypeError(_)) => {}
        other => panic!("expected a type error, got {:?}", other),
    }
}

#[test]
fn repeated_metadata_replaces_the_partition() {
    let md = |len: usize| locustdb::table::PartitionMetadata {
        id: 9,
        tablename: "cold".to_owned(),
        len,
        columns: vec!["a".to_owned()],
    };
    let tables = Table::load_table_metadata(4096, &vec![md(2), md(5)]);
    assert_eq!(tables.len(), 1);
    // The second record replaces the first: one partition under id 9.
    assert_eq!(tables[0].partitions.len(), 1);
    assert_eq!(tables[0].partitions[0].id, 9);
    assert_eq!(tables[0].partitions[0].len, 5);
}

#[test]
fn meta_tables_records_its_own_creation() {
    let mut db = InnerLocustDB::new(&vec![], &Options::default());
    db.ingest("events", vec![("a".to_owned(), RawVal::Int(1))]);
    let meta = db.snapshot("_meta_tables").expect("the registry table exists");
    // Both the registry itself and the user table are recorded, each
    // sealed immediately at batch size one.
    let rows: usize = meta.iter().map(|p| p.len).sum();
    assert_eq!(rows, 2);
}

#[test]
fn registry_row_names_the_created_table() {
    let mut db = InnerLocustDB::new(&vec![], &Options::default());
    db.ingest("events", vec![("a".to_owned(), RawVal::Int(1))]);
    let meta = db.snapshot("_meta_tables").expect("the registry table exists");
    // One registry row carries the new table's name in its "name" column.
    let mut found = false;
    for p in &meta {
        let cols = p.resident_columns().expect("registry columns are resident");
        for (name, vals) in &cols {
            if name == "name" && vals.contains(&RawVal::Str("events".to_owned())) {
                found = true;
            }
        }
    }
    assert!(found);
}

#[test]
fn store_partition_loads_and_marks() {
    let mut db = InnerLocustDB::new(&vec![], &Options::default());
    let pid = db.store_partition(
        "warm",
        vec![locustdb::store::Column {
            name: "a".to_owned(),
            data: ints(&[7, 8]),
        }],
    );
    assert_eq!(db.max_partition_id(), pid + 1);
    let parts = db.snapshot("warm").expect("the table exists");
    assert_eq!(parts.len(), 1);
    assert_eq!(parts[0].id, pid);
    assert_eq!(parts[0].len, 2);
    let cols = parts[0].resident_columns().expect("resident");
    assert_eq!(cols[0].1, ints(&[7, 8]));
    // Storing under the same name again replaces nothing: a fresh id.
    let pid2 = db.store_partition(
        "warm",
        vec![locustdb::store::Column {
            name: "a".to_owned(),
            data: ints(&[9]),
        }],
    );
    assert_eq!(pid2, pid + 1);
    assert_eq!(db.snapshot("warm").unwrap().len(), 2);
}

#[test]
fn enforcement_evicts_down_to_the_limit() {
    let mut db = InnerLocustDB::new(
        &vec![],
        &Options {
            threads: 1,
            read_threads: 1,
            mem_size_limit_tables: 0,
            mem_lz4: false,
        },
    );
    let pid = db.store_partition(
        "big",
        vec![locustdb::store::Column {
            name: "a".to_owned(),
            data: ints(&[1, 2, 3, 4]),
        }],
    );
    assert!(db.total_heap() > 0);
    db.enforce_mem_limit_step();
    // Everything evictable was evicted; the column is gone from memory
    // but its metadata remains.
    let parts = db.snapshot("big").expect("the table exists");
    assert_eq!(parts[0].id, pid);
    assert!(parts[0].resident_columns().is_none());
}
