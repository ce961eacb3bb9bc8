use db_utils::backend::{NumberedBackend, UnindexedBackend};
use db_utils::encrypt::PlainEncryptor;
use db_utils::filter::{encode_tag_filter, TagQuery};
use db_utils::params::{Arg, QueryParams};
use db_utils::query::{extend_query, limit_query};

#[test]
fn pagination_absent_leaves_query_unchanged() {
    let mut args = QueryParams::new();
    let base = String::from("SELECT * FROM items WHERE profile_id = $1");
    let out = limit_query::<NumberedBackend>(base.clone(), &mut args, None, None);
    assert_eq!(out, base);
    assert_eq!(args.len(), 0);
    assert_eq!(args.into_arguments(), Vec::<Arg>::new());
}

#[test]
fn pagination_present_binds_offset_then_limit() {
    let mut args = QueryParams::new();
    args.push(Arg::Int(42));
    let base = String::from("SELECT * FROM items WHERE profile_id = $1");
    let out = limit_query::<NumberedBackend>(base, &mut args, Some(10), Some(20));
    assert_eq!(out, "SELECT * FROM items WHERE profile_id = $1 LIMIT $2, $3");
    assert_eq!(args.len(), 3);
    assert_eq!(
        args.into_arguments(),
        vec![Arg::Int(42), Arg::Int(10), Arg::Int(20)]
    );
}

#[test]
fn pagination_defaults_offset_zero_and_unbounded_limit() {
    let mut args = QueryParams::new();
    let out = limit_query::<UnindexedBackend>(String::from("Q"), &mut args, None, Some(20));
    assert_eq!(out, "Q LIMIT ?, ?");
    assert_eq!(args.into_arguments(), vec![Arg::Int(0), Arg::Int(20)]);

    let mut args = QueryParams::new();
    let out = limit_query::<UnindexedBackend>(String::from("Q"), &mut args, Some(10), None);
    assert_eq!(out, "Q LIMIT ?, ?");
    assert_eq!(args.into_arguments(), vec![Arg::Int(10), Arg::Int(-1)]);
}

#[test]
fn filter_arguments_precede_pagination_arguments() {
    let tree = TagQuery::And(
        Box::new(TagQuery::Eq(String::from("a"), String::from("1"))),
        Box::new(TagQuery::Eq(String::from("b"), String::from("2"))),
    );
    let filter = encode_tag_filter::<NumberedBackend, PlainEncryptor>(Some(&tree), None, 0)
        .unwrap()
        .unwrap();
    let mut args = QueryParams::new();
    let out = extend_query::<NumberedBackend>(
        "SELECT * FROM items WHERE profile_id = 1",
        &mut args,
        Some(filter),
        Some(10),
        Some(20),
    )
    .unwrap();
    assert_eq!(
        out,
        "SELECT * FROM items WHERE profile_id = 1 AND \
         ((name = '61' AND value = $1) AND (name = '62' AND value = $2)) LIMIT $3, $4"
    );
    let bound = args.into_arguments();
    assert_eq!(
        bound,
        vec![
            Arg::Bytes(b"1".to_vec()),
            Arg::Bytes(b"2".to_vec()),
            Arg::Int(10),
            Arg::Int(20),
        ]
    );
    assert_eq!(bound.len(), 4);
}

#[test]
fn extend_query_without_filter_or_pagination() {
    let mut args = QueryParams::new();
    let out = extend_query::<NumberedBackend>("BASE", &mut args, None, None, None).unwrap();
    assert_eq!(out, "BASE");
    assert_eq!(args.len(), 0);
}

#[test]
fn collector_extend_preserves_order() {
    let mut args = QueryParams::new();
    args.push(Arg::Int(1));
    args.extend(vec![Arg::Bytes(vec![2]), Arg::Int(3)]);
    args.push(Arg::Int(4));
    assert_eq!(args.len(), 4);
    assert_eq!(
        args.into_arguments(),
        vec![Arg::Int(1), Arg::Bytes(vec![2]), Arg::Int(3), Arg::Int(4)]
    );
}
