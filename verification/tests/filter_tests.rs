use db_utils::backend::{NumberedBackend, UnindexedBackend};
use db_utils::encrypt::{PlainEncryptor, XorEncryptor};
use db_utils::filter::{encode_tag_filter, hex_string, TagQuery};
use db_utils::KvError;

fn eq(name: &str, value: &str) -> TagQuery {
    TagQuery::Eq(String::from(name), String::from(value))
}

#[test]
fn hex_rendering() {
    assert_eq!(hex_string(&vec![]), "");
    assert_eq!(hex_string(&vec![0x00, 0x0f, 0xa5, 0xff]), "000fa5ff");
}

#[test]
fn plain_compile_passes_raw_bytes_through() {
    let tree = eq("category", "x");
    let r = encode_tag_filter::<UnindexedBackend, PlainEncryptor>(Some(&tree), None, 0)
        .unwrap()
        .unwrap();
    assert_eq!(r.0, "(name = '63617465676f7279' AND value = ?)");
    assert_eq!(r.1, vec![b"x".to_vec()]);
}

#[test]
fn encrypted_compile_applies_capability_exactly_once() {
    let key = XorEncryptor { key: 0x07, cap: 64 };
    let tree = eq("category", "x");
    let r = encode_tag_filter::<UnindexedBackend, XorEncryptor>(Some(&tree), Some(&key), 0)
        .unwrap()
        .unwrap();
    // "category" with each byte combined with 0x07.
    assert_eq!(r.0, "(name = '646673626068757e' AND value = ?)");
    // "x" is 0x78; 0x78 ^ 0x07 == 0x7f.
    assert_eq!(r.1, vec![vec![0x7f]]);
}

#[test]
fn composite_filter_is_parenthesized() {
    let tree = TagQuery::Or(
        Box::new(TagQuery::And(Box::new(eq("a", "1")), Box::new(eq("b", "2")))),
        Box::new(TagQuery::Not(Box::new(eq("c", "3")))),
    );
    let r = encode_tag_filter::<NumberedBackend, PlainEncryptor>(Some(&tree), None, 0)
        .unwrap()
        .unwrap();
    assert_eq!(
        r.0,
        "(((name = '61' AND value = $1) AND (name = '62' AND value = $2)) \
         OR NOT (name = '63' AND value = $3))"
    );
    assert_eq!(r.1, vec![b"1".to_vec(), b"2".to_vec(), b"3".to_vec()]);
}

#[test]
fn compile_is_deterministic() {
    let key = XorEncryptor { key: 0x2a, cap: 64 };
    let tree = TagQuery::And(
        Box::new(eq("color", "blue")),
        Box::new(TagQuery::In(
            String::from("size"),
            vec![String::from("s"), String::from("m")],
        )),
    );
    let first = encode_tag_filter::<NumberedBackend, XorEncryptor>(Some(&tree), Some(&key), 2)
        .unwrap()
        .unwrap();
    let second = encode_tag_filter::<NumberedBackend, XorEncryptor>(Some(&tree), Some(&key), 2)
        .unwrap()
        .unwrap();
    assert_eq!(first.0, second.0);
    assert_eq!(first.1, second.1);
}

#[test]
fn offset_shifts_placeholder_indices() {
    let tree = eq("a", "1");
    let r = encode_tag_filter::<NumberedBackend, PlainEncryptor>(Some(&tree), None, 5)
        .unwrap()
        .unwrap();
    assert_eq!(r.0, "(name = '61' AND value = $6)");
}

#[test]
fn absent_filter_compiles_to_nothing() {
    let r = encode_tag_filter::<NumberedBackend, PlainEncryptor>(None, None, 0).unwrap();
    assert!(r.is_none());
}

#[test]
fn in_membership_binds_one_argument_per_member() {
    let tree = TagQuery::In(
        String::from("b"),
        vec![String::from("1"), String::from("2"), String::from("3")],
    );
    let r = encode_tag_filter::<NumberedBackend, PlainEncryptor>(Some(&tree), None, 0)
        .unwrap()
        .unwrap();
    assert_eq!(r.0, "(name = '62' AND value IN ($1, $2, $3))");
    assert_eq!(r.1, vec![b"1".to_vec(), b"2".to_vec(), b"3".to_vec()]);
}

#[test]
fn between_binds_lower_then_upper() {
    let tree = TagQuery::Between(String::from("n"), String::from("2"), String::from("7"));
    let r = encode_tag_filter::<NumberedBackend, PlainEncryptor>(Some(&tree), None, 0)
        .unwrap()
        .unwrap();
    assert_eq!(r.0, "(name = '6e' AND value >= $1 AND value <= $2)");
    assert_eq!(r.1, vec![b"2".to_vec(), b"7".to_vec()]);
}

#[test]
fn existence_binds_no_argument() {
    let tree = TagQuery::Exist(String::from("n"));
    let r = encode_tag_filter::<NumberedBackend, PlainEncryptor>(Some(&tree), None, 4)
        .unwrap()
        .unwrap();
    assert_eq!(r.0, "(name = '6e')");
    assert_eq!(r.1, Vec::<Vec<u8>>::new());
}

#[test]
fn comparison_operators_render() {
    let cases: Vec<(TagQuery, &str)> = vec![
        (TagQuery::Neq(String::from("n"), String::from("1")), "!="),
        (TagQuery::Gt(String::from("n"), String::from("1")), ">"),
        (TagQuery::Gte(String::from("n"), String::from("1")), ">="),
        (TagQuery::Lt(String::from("n"), String::from("1")), "<"),
        (TagQuery::Lte(String::from("n"), String::from("1")), "<="),
    ];
    for (tree, op) in cases {
        let r = encode_tag_filter::<NumberedBackend, PlainEncryptor>(Some(&tree), None, 0)
            .unwrap()
            .unwrap();
        assert_eq!(r.0, format!("(name = '6e' AND value {} $1)", op));
    }
}

#[test]
fn refused_encryption_aborts_compilation() {
    // The capability refuses plaintexts longer than three bytes.
    let key = XorEncryptor { key: 0x01, cap: 3 };
    let tree = TagQuery::And(
        Box::new(eq("ok", "1")),
        Box::new(eq("name", "too long a value")),
    );
    let r = encode_tag_filter::<NumberedBackend, XorEncryptor>(Some(&tree), Some(&key), 0);
    assert_eq!(r, Err(KvError::Encryption));
}
