//! The encrypted tag-filter compiler: turns a parsed tag-query tree and
//! an optional encryption capability into a SQL boolean fragment plus
//! its positional ciphertext arguments, every tag name and value passing
//! through the capability before it reaches the statement.
//!
//! A compiled leaf compares the `name` column against the encrypted tag
//! name, rendered as a hexadecimal literal, and the `value` column
//! against a placeholder marker bound to the encrypted tag value, so
//! that no plaintext ever appears in the fragment. Composite nodes wrap
//! their operands in parentheses, preserving the tree's precedence at
//! any nesting depth.
//!
//! Compilation is synchronous and performs per-leaf cryptographic work;
//! a caller on a latency-sensitive cooperative scheduler should run it
//! on a dedicated worker context.

use vstd::prelude::*;

use crate::backend::QueryPrepare;
use crate::encrypt::{EncryptionKey, PlainEncryptor};
use crate::rewrite::{
    lemma_marker_concat, lemma_no_marker, marker_count, replace_arg_placeholders, rewritten,
    starts_with_marker,
};
use crate::KvError;
use vstd::utf8::encode_utf8;

verus! {

/// The character for one hexadecimal digit.
pub open spec fn hex_char(d: int) -> char {
    if d == 0 {
        '0'
    } else if d == 1 {
        '1'
    } else if d == 2 {
        '2'
    } else if d == 3 {
        '3'
    } else if d == 4 {
        '4'
    } else if d == 5 {
        '5'
    } else if d == 6 {
        '6'
    } else if d == 7 {
        '7'
    } else if d == 8 {
        '8'
    } else if d == 9 {
        '9'
    } else if d == 10 {
        'a'
    } else if d == 11 {
        'b'
    } else if d == 12 {
        'c'
    } else if d == 13 {
        'd'
    } else if d == 14 {
        'e'
    } else {
        'f'
    }
}

/// The hexadecimal rendering of `b`, two digits per byte, high digit
/// first.
pub open spec fn hex_of(b: Seq<u8>) -> Seq<char>
    decreases b.len(),
{
    if b.len() == 0 {
        Seq::<char>::empty()
    } else {
        seq![hex_char(b[0] as int / 16), hex_char(b[0] as int % 16)] + hex_of(b.skip(1))
    }
}

/// The text of one hexadecimal digit.
fn hex_digit_str(d: u8) -> (r: &'static str)
    requires
        d < 16,
    ensures
        r@ == seq![hex_char(d as int)],
{
    proof {
        reveal_strlit("0");
        reveal_strlit("1");
        reveal_strlit("2");
        reveal_strlit("3");
        reveal_strlit("4");
        reveal_strlit("5");
        reveal_strlit("6");
        reveal_strlit("7");
        reveal_strlit("8");
        reveal_strlit("9");
        reveal_strlit("a");
        reveal_strlit("b");
        reveal_strlit("c");
        reveal_strlit("d");
        reveal_strlit("e");
        reveal_strlit("f");
    }
    match d {
        0 => "0",
        1 => "1",
        2 => "2",
        3 => "3",
        4 => "4",
        5 => "5",
        6 => "6",
        7 => "7",
        8 => "8",
        9 => "9",
        10 => "a",
        11 => "b",
        12 => "c",
        13 => "d",
        14 => "e",
        _ => "f",
    }
}

/// Renders bytes in hexadecimal.
pub fn hex_string(b: &Vec<u8>) -> (r: String)
    ensures
        r@ == hex_of(b@),
{
    let mut out = String::new();
    let mut i: usize = 0;
    proof {
        assert(b@.skip(0) =~= b@);
        assert(out@ + hex_of(b@) =~= hex_of(b@));
    }
    while i < b.len()
        invariant
            i <= b@.len(),
            hex_of(b@) == out@ + hex_of(b@.skip(i as int)),
        decreases b@.len() - i,
    {
        let ghost pre = b@.skip(i as int);
        let ghost out0 = out@;
        let byte = b[i];
        out.append(hex_digit_str(byte / 16));
        out.append(hex_digit_str(byte % 16));
        i = i + 1;
        proof {
            assert(pre.skip(1) =~= b@.skip(i as int));
            assert(out0 + hex_of(pre) =~= out@ + hex_of(b@.skip(i as int)));
        }
    }
    proof {
        assert(b@.skip(b@.len() as int) =~= Seq::<u8>::empty());
        assert(out@ + Seq::<char>::empty() =~= out@);
    }
    out
}

/// A parsed tag-query tree: boolean combinations of comparisons on a
/// single tag. Supplied by an external parser; read-only here.
pub enum TagQuery {
    /// The tag `name` has exactly the value.
    Eq(String, String),
    /// The tag `name` has a value other than the one given.
    Neq(String, String),
    /// The tag's value is greater than the one given.
    Gt(String, String),
    /// The tag's value is at least the one given.
    Gte(String, String),
    /// The tag's value is less than the one given.
    Lt(String, String),
    /// The tag's value is at most the one given.
    Lte(String, String),
    /// The tag's value lies in the closed range of the two values.
    Between(String, String, String),
    /// The tag's value is one of the listed values.
    In(String, Vec<String>),
    /// A tag of that name is present, whatever its value.
    Exist(String),
    /// Both operands hold.
    And(Box<TagQuery>, Box<TagQuery>),
    /// At least one operand holds.
    Or(Box<TagQuery>, Box<TagQuery>),
    /// The operand does not hold.
    Not(Box<TagQuery>),
}

/// How many literal values the tree binds: one per comparison leaf,
/// two for a range, one per listed member, none for existence.
pub open spec fn leaf_value_count(q: &TagQuery) -> nat
    decreases q,
{
    match q {
        TagQuery::Eq(_, _) => 1,
        TagQuery::Neq(_, _) => 1,
        TagQuery::Gt(_, _) => 1,
        TagQuery::Gte(_, _) => 1,
        TagQuery::Lt(_, _) => 1,
        TagQuery::Lte(_, _) => 1,
        TagQuery::Between(_, _, _) => 2,
        TagQuery::In(_, vs) => vs@.len(),
        TagQuery::Exist(_) => 0,
        TagQuery::And(a, b) => leaf_value_count(a) + leaf_value_count(b),
        TagQuery::Or(a, b) => leaf_value_count(a) + leaf_value_count(b),
        TagQuery::Not(c) => leaf_value_count(c),
    }
}

/// A compiled filter: the SQL boolean fragment, markers still in
/// backend-neutral form, and its ciphertext arguments in marker order.
pub ghost struct CompiledV {
    pub frag: Seq<char>,
    pub args: Seq<Seq<u8>>,
}

/// The abstract value of an argument list: each argument's bytes.
pub open spec fn bytes_view(args: Vec<Vec<u8>>) -> Seq<Seq<u8>> {
    args@.map_values(|v: Vec<u8>| v@)
}

/// The fragment of one comparison leaf: the encrypted name as a
/// hexadecimal literal, the operator, and one marker for the value.
pub open spec fn cmp_frag(nc: Seq<u8>, op: Seq<char>) -> Seq<char> {
    "(name = '"@ + hex_of(nc) + "' AND value "@ + op + " "@ + "$$"@ + ")"@
}

/// One comparison leaf, compiled: name and value each encrypted once.
pub open spec fn cmp_compiled<E: EncryptionKey>(
    e: &E,
    name: Seq<char>,
    value: Seq<char>,
    op: Seq<char>,
) -> Option<CompiledV> {
    match e.name_ct(encode_utf8(name)) {
        Some(nc) => match e.value_ct(encode_utf8(value)) {
            Some(vc) => Some(CompiledV { frag: cmp_frag(nc, op), args: seq![vc] }),
            None => None,
        },
        None => None,
    }
}

/// The fragment of one range leaf: two markers, bounds in order.
pub open spec fn between_frag(nc: Seq<u8>) -> Seq<char> {
    "(name = '"@ + hex_of(nc) + "' AND value >= "@ + "$$"@ + " AND value <= "@ + "$$"@ + ")"@
}

/// A range leaf, compiled: two markers, lower bound then upper bound.
pub open spec fn between_compiled<E: EncryptionKey>(
    e: &E,
    name: Seq<char>,
    lo: Seq<char>,
    hi: Seq<char>,
) -> Option<CompiledV> {
    match e.name_ct(encode_utf8(name)) {
        Some(nc) => match (e.value_ct(encode_utf8(lo)), e.value_ct(encode_utf8(hi))) {
            (Some(lc), Some(hc)) => Some(CompiledV { frag: between_frag(nc), args: seq![lc, hc] }),
            _ => None,
        },
        None => None,
    }
}

/// Whether the capability accepts every member value of a set leaf.
pub open spec fn in_values_ok<E: EncryptionKey>(e: &E, vals: Seq<Seq<char>>) -> bool {
    forall|i: int| 0 <= i < vals.len() ==> e.value_ct(encode_utf8(vals[i])) is Some
}

/// The ciphertexts of a set leaf's member values, in member order.
pub open spec fn in_values_cts<E: EncryptionKey>(e: &E, vals: Seq<Seq<char>>) -> Seq<Seq<u8>> {
    vals.map_values(|v: Seq<char>| e.value_ct(encode_utf8(v)).unwrap())
}

/// The marker list of a set leaf: one marker per member, separated by
/// commas.
pub open spec fn in_markers(n: nat) -> Seq<char>
    decreases n,
{
    if n == 0 {
        Seq::<char>::empty()
    } else if n == 1 {
        "$$"@
    } else {
        in_markers((n - 1) as nat) + ", "@ + "$$"@
    }
}

/// The fragment of one set-membership leaf: one marker per member.
pub open spec fn in_frag(nc: Seq<u8>, n: nat) -> Seq<char> {
    "(name = '"@ + hex_of(nc) + "' AND value IN ("@ + in_markers(n) + "))"@
}

/// A set-membership leaf, compiled: one marker and one ciphertext per
/// member, in member order.
pub open spec fn in_compiled<E: EncryptionKey>(e: &E, name: Seq<char>, vals: Seq<Seq<char>>) -> Option<
    CompiledV,
> {
    match e.name_ct(encode_utf8(name)) {
        Some(nc) => if in_values_ok(e, vals) {
            Some(CompiledV { frag: in_frag(nc, vals.len()), args: in_values_cts(e, vals) })
        } else {
            None
        },
        None => None,
    }
}

/// The fragment of one existence leaf: no marker at all.
pub open spec fn exist_frag(nc: Seq<u8>) -> Seq<char> {
    "(name = '"@ + hex_of(nc) + "')"@
}

/// An existence leaf, compiled: only the encrypted name appears, and no
/// argument is bound.
pub open spec fn exist_compiled<E: EncryptionKey>(e: &E, name: Seq<char>) -> Option<CompiledV> {
    match e.name_ct(encode_utf8(name)) {
        Some(nc) => Some(CompiledV { frag: exist_frag(nc), args: Seq::<Seq<u8>>::empty() }),
        None => None,
    }
}

/// A binary boolean node, compiled: both operands in parentheses, the
/// left operand's arguments before the right operand's.
pub open spec fn bool_compiled(a: Option<CompiledV>, b: Option<CompiledV>, op: Seq<char>) -> Option<
    CompiledV,
> {
    match (a, b) {
        (Some(ca), Some(cb)) => Some(
            CompiledV { frag: "("@ + ca.frag + op + cb.frag + ")"@, args: ca.args + cb.args },
        ),
        _ => None,
    }
}

/// What compiling `q` under the capability `e` produces: the fragment
/// and its arguments, or `None` as soon as any encryption is refused.
pub open spec fn compiled_of<E: EncryptionKey>(e: &E, q: &TagQuery) -> Option<CompiledV>
    decreases q,
{
    match q {
        TagQuery::Eq(n, v) => cmp_compiled(e, n@, v@, "="@),
        TagQuery::Neq(n, v) => cmp_compiled(e, n@, v@, "!="@),
        TagQuery::Gt(n, v) => cmp_compiled(e, n@, v@, ">"@),
        TagQuery::Gte(n, v) => cmp_compiled(e, n@, v@, ">="@),
        TagQuery::Lt(n, v) => cmp_compiled(e, n@, v@, "<"@),
        TagQuery::Lte(n, v) => cmp_compiled(e, n@, v@, "<="@),
        TagQuery::Between(n, lo, hi) => between_compiled(e, n@, lo@, hi@),
        TagQuery::In(n, vs) => in_compiled(e, n@, vs@.map_values(|s: String| s@)),
        TagQuery::Exist(n) => exist_compiled(e, n@),
        TagQuery::And(a, b) => bool_compiled(compiled_of(e, a), compiled_of(e, b), " AND "@),
        TagQuery::Or(a, b) => bool_compiled(compiled_of(e, a), compiled_of(e, b), " OR "@),
        TagQuery::Not(c) => match compiled_of(e, c) {
            Some(cc) => Some(CompiledV { frag: "NOT "@ + cc.frag, args: cc.args }),
            None => None,
        },
    }
}

/// Encrypts the name and value of one comparison leaf and renders its
/// fragment.
fn encode_cmp<E: EncryptionKey>(e: &E, name: &String, value: &String, op: &str) -> (r: Result<
    (String, Vec<Vec<u8>>),
    KvError,
>)
    ensures
        match r {
            Ok(c) => cmp_compiled(e, name@, value@, op@) == Some(
                CompiledV { frag: c.0@, args: bytes_view(c.1) },
            ),
            Err(err) => cmp_compiled(e, name@, value@, op@) is None && err == KvError::Encryption,
        },
{
    let nc = match e.encrypt_tag_name(name.as_str().as_bytes()) {
        Ok(v) => v,
        Err(err) => {
            return Err(err);
        },
    };
    let vc = match e.encrypt_tag_value(value.as_str().as_bytes()) {
        Ok(v) => v,
        Err(err) => {
            return Err(err);
        },
    };
    let mut s = String::from_str("(name = '");
    let h = hex_string(&nc);
    s.append(h.as_str());
    s.append("' AND value ");
    s.append(op);
    s.append(" ");
    s.append("$$");
    s.append(")");
    let ghost vc_view = vc@;
    let mut args: Vec<Vec<u8>> = Vec::new();
    args.push(vc);
    proof {
        assert(s@ =~= cmp_frag(nc@, op@));
        assert(bytes_view(args) =~= seq![vc_view]);
    }
    Ok((s, args))
}

/// Encrypts the name and both bounds of one range leaf and renders its
/// fragment.
fn encode_between<E: EncryptionKey>(e: &E, n: &String, lo: &String, hi: &String) -> (r: Result<
    (String, Vec<Vec<u8>>),
    KvError,
>)
    ensures
        match r {
            Ok(c) => between_compiled(e, n@, lo@, hi@) == Some(
                CompiledV { frag: c.0@, args: bytes_view(c.1) },
            ),
            Err(err) => between_compiled(e, n@, lo@, hi@) is None && err == KvError::Encryption,
        },
{
    let nc = match e.encrypt_tag_name(n.as_str().as_bytes()) {
        Ok(v) => v,
        Err(err) => {
            return Err(err);
        },
    };
    let lc = match e.encrypt_tag_value(lo.as_str().as_bytes()) {
        Ok(v) => v,
        Err(err) => {
            return Err(err);
        },
    };
    let hc = match e.encrypt_tag_value(hi.as_str().as_bytes()) {
        Ok(v) => v,
        Err(err) => {
            return Err(err);
        },
    };
    let mut s = String::from_str("(name = '");
    let h = hex_string(&nc);
    s.append(h.as_str());
    s.append("' AND value >= ");
    s.append("$$");
    s.append(" AND value <= ");
    s.append("$$");
    s.append(")");
    let ghost lc_view = lc@;
    let ghost hc_view = hc@;
    let mut args: Vec<Vec<u8>> = Vec::new();
    args.push(lc);
    args.push(hc);
    proof {
        assert(s@ =~= "(name = '"@ + hex_of(nc@) + "' AND value >= "@ + "$$"@
            + " AND value <= "@ + "$$"@ + ")"@);
        assert(bytes_view(args) =~= seq![lc_view, hc_view]);
    }
    Ok((s, args))
}

/// Encrypts the name and every member of one set-membership leaf and
/// renders its fragment.
fn encode_in<E: EncryptionKey>(e: &E, n: &String, vs: &Vec<String>) -> (r: Result<
    (String, Vec<Vec<u8>>),
    KvError,
>)
    ensures
        match r {
            Ok(c) => in_compiled(e, n@, vs@.map_values(|s: String| s@)) == Some(
                CompiledV { frag: c.0@, args: bytes_view(c.1) },
            ),
            Err(err) => in_compiled(e, n@, vs@.map_values(|s: String| s@)) is None && err
                == KvError::Encryption,
        },
{
    let nc = match e.encrypt_tag_name(n.as_str().as_bytes()) {
        Ok(v) => v,
        Err(err) => {
            return Err(err);
        },
    };
    let ghost vals = vs@.map_values(|s: String| s@);
    let mut args: Vec<Vec<u8>> = Vec::new();
    let mut markers = String::new();
    let mut i: usize = 0;
    while i < vs.len()
        invariant
            vals == vs@.map_values(|s: String| s@),
            i <= vs@.len(),
            markers@ == in_markers(i as nat),
            forall|k: int| 0 <= k < i ==> e.value_ct(encode_utf8(vals[k])) is Some,
            bytes_view(args) == in_values_cts(e, vals.take(i as int)),
        decreases vs@.len() - i,
    {
        let ghost i0 = i as int;
        let ghost args0 = bytes_view(args);
        let ghost argsvec0 = args@;
        let vc = match e.encrypt_tag_value(vs[i].as_str().as_bytes()) {
            Ok(v) => v,
            Err(err) => {
                proof {
                    assert(vals[i0] == vs@[i0]@);
                    assert(e.value_ct(encode_utf8(vals[i0])) is None);
                    assert(!in_values_ok(e, vals));
                    assert(vs@.map_values(|s: String| s@) =~= vals);
                }
                return Err(err);
            },
        };
        if i == 0 {
            markers.append("$$");
            proof {
                assert(Seq::<char>::empty() + "$$"@ =~= "$$"@);
                assert(in_markers(1nat) == "$$"@);
            }
        } else {
            markers.append(", ");
            markers.append("$$");
            proof {
                assert(in_markers((i + 1) as nat) == in_markers(i as nat) + ", "@ + "$$"@);
            }
        }
        let ghost vc_view = vc@;
        args.push(vc);
        i = i + 1;
        proof {
            assert(vals[i0] == vs@[i0]@);
            assert(e.value_ct(encode_utf8(vals[i0])) == Some(vc_view));
            argsvec0.lemma_push_map_commute(|v: Vec<u8>| v@, vc);
            assert(args@ =~= argsvec0.push(vc));
            assert(bytes_view(args) =~= args0.push(vc_view));
            assert forall|j: int| 0 <= j <= i0 implies in_values_cts(e, vals.take(i as int))[j]
                == args0.push(vc_view)[j] by {
                assert(vals.take(i as int)[j] == vals[j]);
                if j < i0 {
                    assert(vals.take(i0)[j] == vals[j]);
                    assert(args0[j] == in_values_cts(e, vals.take(i0))[j]);
                }
            }
            assert(bytes_view(args) =~= in_values_cts(e, vals.take(i as int)));
        }
    }
    proof {
        assert(vals.take(vals.len() as int) =~= vals);
        assert(in_values_ok(e, vals));
        assert(vs@.map_values(|s: String| s@) =~= vals);
    }
    let mut s = String::from_str("(name = '");
    let h = hex_string(&nc);
    s.append(h.as_str());
    s.append("' AND value IN (");
    s.append(markers.as_str());
    s.append("))");
    proof {
        assert(s@ =~= "(name = '"@ + hex_of(nc@) + "' AND value IN ("@ + in_markers(
            vals.len(),
        ) + "))"@);
    }
    Ok((s, args))
}

/// Encrypts the name of one existence leaf and renders its fragment.
fn encode_exist<E: EncryptionKey>(e: &E, n: &String) -> (r: Result<(String, Vec<Vec<u8>>), KvError>)
    ensures
        match r {
            Ok(c) => exist_compiled(e, n@) == Some(CompiledV { frag: c.0@, args: bytes_view(c.1) }),
            Err(err) => exist_compiled(e, n@) is None && err == KvError::Encryption,
        },
{
    let nc = match e.encrypt_tag_name(n.as_str().as_bytes()) {
        Ok(v) => v,
        Err(err) => {
            return Err(err);
        },
    };
    let mut s = String::from_str("(name = '");
    let h = hex_string(&nc);
    s.append(h.as_str());
    s.append("')");
    let args: Vec<Vec<u8>> = Vec::new();
    proof {
        assert(s@ =~= "(name = '"@ + hex_of(nc@) + "')"@);
        assert(bytes_view(args) =~= Seq::<Seq<u8>>::empty());
    }
    Ok((s, args))
}

/// Compiles one tag-query tree into its SQL boolean fragment, markers
/// still backend-neutral, plus the ciphertext arguments in marker
/// order. The first refused encryption aborts the compilation.
pub fn encode_query<E: EncryptionKey>(e: &E, q: &TagQuery) -> (r: Result<
    (String, Vec<Vec<u8>>),
    KvError,
>)
    ensures
        match r {
            Ok(c) => compiled_of(e, q) == Some(CompiledV { frag: c.0@, args: bytes_view(c.1) }),
            Err(err) => compiled_of(e, q) is None && err == KvError::Encryption,
        },
    decreases q,
{
    match q {
        TagQuery::Eq(n, v) => encode_cmp(e, n, v, "="),
        TagQuery::Neq(n, v) => encode_cmp(e, n, v, "!="),
        TagQuery::Gt(n, v) => encode_cmp(e, n, v, ">"),
        TagQuery::Gte(n, v) => encode_cmp(e, n, v, ">="),
        TagQuery::Lt(n, v) => encode_cmp(e, n, v, "<"),
        TagQuery::Lte(n, v) => encode_cmp(e, n, v, "<="),
        TagQuery::Between(n, lo, hi) => encode_between(e, n, lo, hi),
        TagQuery::In(n, vs) => encode_in(e, n, vs),
        TagQuery::Exist(n) => encode_exist(e, n),
        TagQuery::And(a, b) => {
            let ca = match encode_query(e, a) {
                Ok(c) => c,
                Err(err) => {
                    return Err(err);
                },
            };
            let cb = match encode_query(e, b) {
                Ok(c) => c,
                Err(err) => {
                    return Err(err);
                },
            };
            let (fa, mut aa) = ca;
            let (fb, mut ab) = cb;
            let ghost aa0 = bytes_view(aa);
            let ghost ab0 = bytes_view(ab);
            let mut s = String::from_str("(");
            s.append(fa.as_str());
            s.append(" AND ");
            s.append(fb.as_str());
            s.append(")");
            aa.append(&mut ab);
            proof {
                assert(s@ =~= "("@ + fa@ + " AND "@ + fb@ + ")"@);
                assert(bytes_view(aa) =~= aa0 + ab0);
            }
            Ok((s, aa))
        },
        TagQuery::Or(a, b) => {
            let ca = match encode_query(e, a) {
                Ok(c) => c,
                Err(err) => {
                    return Err(err);
                },
            };
            let cb = match encode_query(e, b) {
                Ok(c) => c,
                Err(err) => {
                    return Err(err);
                },
            };
            let (fa, mut aa) = ca;
            let (fb, mut ab) = cb;
            let ghost aa0 = bytes_view(aa);
            let ghost ab0 = bytes_view(ab);
            let mut s = String::from_str("(");
            s.append(fa.as_str());
            s.append(" OR ");
            s.append(fb.as_str());
            s.append(")");
            aa.append(&mut ab);
            proof {
                assert(s@ =~= "("@ + fa@ + " OR "@ + fb@ + ")"@);
                assert(bytes_view(aa) =~= aa0 + ab0);
            }
            Ok((s, aa))
        },
        TagQuery::Not(c) => {
            let cc = match encode_query(e, c) {
                Ok(c) => c,
                Err(err) => {
                    return Err(err);
                },
            };
            let (fc, ac) = cc;
            let mut s = String::from_str("NOT ");
            s.append(fc.as_str());
            proof {
                assert(s@ =~= "NOT "@ + fc@);
            }
            Ok((s, ac))
        },
    }
}

/// The marker literal holds exactly one marker.
proof fn lemma_marker_pair()
    ensures
        marker_count("$$"@) == 1,
        "$$"@.len() == 2,
        "$$"@[0] == '$',
        "$$"@.last() == '$',
{
    reveal_strlit("$$");
    assert(starts_with_marker("$$"@));
    assert("$$"@.skip(2) =~= Seq::<char>::empty());
    assert(marker_count(Seq::<char>::empty()) == 0);
}

/// Hexadecimal text never holds the marker character.
pub proof fn lemma_hex_no_dollar(b: Seq<u8>)
    ensures
        forall|i: int| 0 <= i < hex_of(b).len() ==> hex_of(b)[i] != '$',
    decreases b.len(),
{
    if b.len() > 0 {
        lemma_hex_no_dollar(b.skip(1));
        let h = hex_of(b);
        let rest = hex_of(b.skip(1));
        assert(hex_char(b[0] as int / 16) != '$');
        assert(hex_char(b[0] as int % 16) != '$');
        assert forall|i: int| 0 <= i < h.len() implies h[i] != '$' by {
            if i >= 2 {
                assert(h[i] == rest[i - 2]);
            }
        }
    }
}

/// One comparison leaf's fragment holds exactly one marker, and opens
/// and closes with ordinary text.
proof fn lemma_cmp_frag_markers(nc: Seq<u8>, op: Seq<char>)
    requires
        op.len() > 0,
        op[0] != '$',
        op.last() != '$',
        marker_count(op) == 0,
    ensures
        marker_count(cmp_frag(nc, op)) == 1,
        cmp_frag(nc, op).len() > 0,
        cmp_frag(nc, op)[0] != '$',
        cmp_frag(nc, op).last() != '$',
{
    let a = "(name = '"@;
    let h = hex_of(nc);
    let b = "' AND value "@;
    let sp = " "@;
    let m = "$$"@;
    let rp = ")"@;
    reveal_strlit("(name = '");
    reveal_strlit("' AND value ");
    reveal_strlit(" ");
    reveal_strlit(")");
    lemma_marker_pair();
    assert(forall|i: int| 0 <= i < a.len() ==> a[i] != '$');
    lemma_no_marker(a);
    assert(forall|i: int| 0 <= i < b.len() ==> b[i] != '$');
    lemma_no_marker(b);
    assert(forall|i: int| 0 <= i < sp.len() ==> sp[i] != '$');
    lemma_no_marker(sp);
    assert(forall|i: int| 0 <= i < rp.len() ==> rp[i] != '$');
    lemma_no_marker(rp);
    lemma_hex_no_dollar(nc);
    lemma_no_marker(h);
    let p1 = a + h;
    lemma_marker_concat(a, h);
    assert(p1.len() > 0);
    assert(p1.last() != '$') by {
        if h.len() == 0 {
            assert(p1 =~= a);
        } else {
            assert(p1.last() == h.last());
        }
    }
    let p2 = p1 + b;
    lemma_marker_concat(p1, b);
    assert(p2.last() == b.last());
    let p3 = p2 + op;
    lemma_marker_concat(p2, op);
    assert(p3.last() == op.last());
    let p4 = p3 + sp;
    lemma_marker_concat(p3, sp);
    assert(p4.last() == sp.last());
    let p5 = p4 + m;
    lemma_marker_concat(p4, m);
    assert(p5.last() == m.last());
    let p6 = p5 + rp;
    lemma_marker_concat(p5, rp);
    assert(p6.last() == rp.last());
    assert(p6 == cmp_frag(nc, op));
    assert(p6[0] == a[0]);
}

/// One range leaf's fragment holds exactly two markers, and opens and
/// closes with ordinary text.
proof fn lemma_between_frag_markers(nc: Seq<u8>)
    ensures
        between_frag(nc).len() > 0,
        marker_count(between_frag(nc)) == 2,
        between_frag(nc)[0] != '$',
        between_frag(nc).last() != '$',
{
    let a = "(name = '"@;
    let h = hex_of(nc);
    let b = "' AND value >= "@;
    let c = " AND value <= "@;
    let m = "$$"@;
    let rp = ")"@;
    reveal_strlit("(name = '");
    reveal_strlit("' AND value >= ");
    reveal_strlit(" AND value <= ");
    reveal_strlit(")");
    lemma_marker_pair();
    assert(forall|i: int| 0 <= i < a.len() ==> a[i] != '$');
    lemma_no_marker(a);
    assert(forall|i: int| 0 <= i < b.len() ==> b[i] != '$');
    lemma_no_marker(b);
    assert(forall|i: int| 0 <= i < c.len() ==> c[i] != '$');
    lemma_no_marker(c);
    assert(forall|i: int| 0 <= i < rp.len() ==> rp[i] != '$');
    lemma_no_marker(rp);
    lemma_hex_no_dollar(nc);
    lemma_no_marker(h);
    let p1 = a + h;
    lemma_marker_concat(a, h);
    assert(p1.len() > 0);
    assert(p1.last() != '$') by {
        if h.len() == 0 {
            assert(p1 =~= a);
        } else {
            assert(p1.last() == h.last());
        }
    }
    let p2 = p1 + b;
    lemma_marker_concat(p1, b);
    assert(p2.last() == b.last());
    let p3 = p2 + m;
    lemma_marker_concat(p2, m);
    assert(p3.last() == m.last());
    let p4 = p3 + c;
    lemma_marker_concat(p3, c);
    assert(p4.last() == c.last());
    let p5 = p4 + m;
    lemma_marker_concat(p4, m);
    assert(p5.last() == m.last());
    let p6 = p5 + rp;
    lemma_marker_concat(p5, rp);
    assert(p6.last() == rp.last());
    assert(p6 == between_frag(nc));
    assert(p6[0] == a[0]);
}

/// A set leaf's marker list holds one marker per member.
proof fn lemma_in_markers_count(n: nat)
    ensures
        marker_count(in_markers(n)) == n,
        n > 0 ==> in_markers(n).len() > 0 && in_markers(n)[0] == '$' && in_markers(n).last()
            == '$',
    decreases n,
{
    lemma_marker_pair();
    if n == 0 {
        assert(marker_count(Seq::<char>::empty()) == 0);
    } else if n == 1 {
    } else {
        lemma_in_markers_count((n - 1) as nat);
        let prev = in_markers((n - 1) as nat);
        let comma = ", "@;
        let m = "$$"@;
        reveal_strlit(", ");
        assert(forall|i: int| 0 <= i < comma.len() ==> comma[i] != '$');
        lemma_no_marker(comma);
        let p1 = prev + comma;
        lemma_marker_concat(prev, comma);
        assert(p1.last() == comma.last());
        let p2 = p1 + m;
        lemma_marker_concat(p1, m);
        assert(p2.last() == m.last());
        assert(p2 == in_markers(n));
        assert(p2[0] == prev[0]);
    }
}

/// A set leaf's fragment holds exactly one marker per member, and opens
/// and closes with ordinary text.
proof fn lemma_in_frag_markers(nc: Seq<u8>, n: nat)
    ensures
        in_frag(nc, n).len() > 0,
        marker_count(in_frag(nc, n)) == n,
        in_frag(nc, n)[0] != '$',
        in_frag(nc, n).last() != '$',
{
    let a = "(name = '"@;
    let h = hex_of(nc);
    let b = "' AND value IN ("@;
    let ms = in_markers(n);
    let rp = "))"@;
    reveal_strlit("(name = '");
    reveal_strlit("' AND value IN (");
    reveal_strlit("))");
    lemma_in_markers_count(n);
    assert(forall|i: int| 0 <= i < a.len() ==> a[i] != '$');
    lemma_no_marker(a);
    assert(forall|i: int| 0 <= i < b.len() ==> b[i] != '$');
    lemma_no_marker(b);
    assert(forall|i: int| 0 <= i < rp.len() ==> rp[i] != '$');
    lemma_no_marker(rp);
    lemma_hex_no_dollar(nc);
    lemma_no_marker(h);
    let p1 = a + h;
    lemma_marker_concat(a, h);
    assert(p1.len() > 0);
    assert(p1.last() != '$') by {
        if h.len() == 0 {
            assert(p1 =~= a);
        } else {
            assert(p1.last() == h.last());
        }
    }
    let p2 = p1 + b;
    lemma_marker_concat(p1, b);
    assert(p2.last() == b.last());
    let p3 = p2 + ms;
    lemma_marker_concat(p2, ms);
    assert(p3.last() != '$' || ms.len() > 0) by {
        if ms.len() == 0 {
            assert(p3 =~= p2);
        }
    }
    let p4 = p3 + rp;
    lemma_marker_concat(p3, rp);
    assert(p4.last() == rp.last());
    assert(p4 == in_frag(nc, n));
    assert(p4[0] == a[0]);
}

/// An existence leaf's fragment holds no marker.
proof fn lemma_exist_frag_markers(nc: Seq<u8>)
    ensures
        exist_frag(nc).len() > 0,
        marker_count(exist_frag(nc)) == 0,
        exist_frag(nc)[0] != '$',
        exist_frag(nc).last() != '$',
{
    let a = "(name = '"@;
    let h = hex_of(nc);
    let rp = "')"@;
    reveal_strlit("(name = '");
    reveal_strlit("')");
    assert(forall|i: int| 0 <= i < a.len() ==> a[i] != '$');
    lemma_no_marker(a);
    assert(forall|i: int| 0 <= i < rp.len() ==> rp[i] != '$');
    lemma_no_marker(rp);
    lemma_hex_no_dollar(nc);
    lemma_no_marker(h);
    let p1 = a + h;
    lemma_marker_concat(a, h);
    assert(p1.len() > 0);
    assert(p1.last() != '$') by {
        if h.len() == 0 {
            assert(p1 =~= a);
        } else {
            assert(p1.last() == h.last());
        }
    }
    let p2 = p1 + rp;
    lemma_marker_concat(p1, rp);
    assert(p2.last() == rp.last());
    assert(p2 == exist_frag(nc));
    assert(p2[0] == a[0]);
}

/// One comparison leaf, compiled, keeps one marker and one argument.
proof fn lemma_cmp_compiled_markers<E: EncryptionKey>(
    e: &E,
    name: Seq<char>,
    value: Seq<char>,
    op: Seq<char>,
)
    requires
        op.len() > 0,
        op[0] != '$',
        op.last() != '$',
        marker_count(op) == 0,
    ensures
        match cmp_compiled(e, name, value, op) {
            Some(c) => {
                &&& marker_count(c.frag) == 1
                &&& c.args.len() == 1
                &&& c.frag.len() > 0
                &&& c.frag[0] != '$'
                &&& c.frag.last() != '$'
            },
            None => true,
        },
{
    if cmp_compiled(e, name, value, op) is Some {
        lemma_cmp_frag_markers(e.name_ct(encode_utf8(name)).unwrap(), op);
    }
}

/// The marker facts of each comparison operator's text.
proof fn lemma_op_text(op: Seq<char>)
    requires
        op == "="@ || op == "!="@ || op == ">"@ || op == ">="@ || op == "<"@ || op == "<="@
            || op == " AND "@ || op == " OR "@,
    ensures
        op.len() > 0,
        op[0] != '$',
        op.last() != '$',
        marker_count(op) == 0,
{
    reveal_strlit("=");
    reveal_strlit("!=");
    reveal_strlit(">");
    reveal_strlit(">=");
    reveal_strlit("<");
    reveal_strlit("<=");
    reveal_strlit(" AND ");
    reveal_strlit(" OR ");
    assert(forall|i: int| 0 <= i < op.len() ==> op[i] != '$');
    lemma_no_marker(op);
}

/// The shape law of a compiled filter: the fragment holds exactly one
/// marker per bound argument — one per literal value of the tree — so
/// argument positions and markers correspond one to one, left to right.
pub proof fn lemma_compiled_markers<E: EncryptionKey>(e: &E, q: &TagQuery)
    ensures
        match compiled_of(e, q) {
            Some(c) => {
                &&& marker_count(c.frag) == leaf_value_count(q)
                &&& c.args.len() == leaf_value_count(q)
                &&& c.frag.len() > 0
                &&& c.frag[0] != '$'
                &&& c.frag.last() != '$'
            },
            None => true,
        },
    decreases q,
{
    match q {
        TagQuery::Eq(n, v) => {
            lemma_op_text("="@);
            lemma_cmp_compiled_markers(e, n@, v@, "="@);
        },
        TagQuery::Neq(n, v) => {
            lemma_op_text("!="@);
            lemma_cmp_compiled_markers(e, n@, v@, "!="@);
        },
        TagQuery::Gt(n, v) => {
            lemma_op_text(">"@);
            lemma_cmp_compiled_markers(e, n@, v@, ">"@);
        },
        TagQuery::Gte(n, v) => {
            lemma_op_text(">="@);
            lemma_cmp_compiled_markers(e, n@, v@, ">="@);
        },
        TagQuery::Lt(n, v) => {
            lemma_op_text("<"@);
            lemma_cmp_compiled_markers(e, n@, v@, "<"@);
        },
        TagQuery::Lte(n, v) => {
            lemma_op_text("<="@);
            lemma_cmp_compiled_markers(e, n@, v@, "<="@);
        },
        TagQuery::Between(n, lo, hi) => {
            if compiled_of(e, q) is Some {
                lemma_between_frag_markers(e.name_ct(encode_utf8(n@)).unwrap());
            }
        },
        TagQuery::In(n, vs) => {
            if compiled_of(e, q) is Some {
                let vals = vs@.map_values(|s: String| s@);
                lemma_in_frag_markers(e.name_ct(encode_utf8(n@)).unwrap(), vals.len());
            }
        },
        TagQuery::Exist(n) => {
            if compiled_of(e, q) is Some {
                lemma_exist_frag_markers(e.name_ct(encode_utf8(n@)).unwrap());
            }
        },
        TagQuery::And(a, b) => {
            lemma_compiled_markers(e, a);
            lemma_compiled_markers(e, b);
            if compiled_of(e, a) is Some && compiled_of(e, b) is Some {
                lemma_op_text(" AND "@);
                lemma_bool_frag_markers(
                    compiled_of(e, a).unwrap().frag,
                    compiled_of(e, b).unwrap().frag,
                    " AND "@,
                );
            }
        },
        TagQuery::Or(a, b) => {
            lemma_compiled_markers(e, a);
            lemma_compiled_markers(e, b);
            if compiled_of(e, a) is Some && compiled_of(e, b) is Some {
                lemma_op_text(" OR "@);
                lemma_bool_frag_markers(
                    compiled_of(e, a).unwrap().frag,
                    compiled_of(e, b).unwrap().frag,
                    " OR "@,
                );
            }
        },
        TagQuery::Not(cq) => {
            lemma_compiled_markers(e, cq);
            if compiled_of(e, cq) is Some {
                let inner = compiled_of(e, cq).unwrap().frag;
                let nt = "NOT "@;
                reveal_strlit("NOT ");
                assert(forall|i: int| 0 <= i < nt.len() ==> nt[i] != '$');
                lemma_no_marker(nt);
                lemma_marker_concat(nt, inner);
                assert((nt + inner).last() == inner.last());
                assert((nt + inner)[0] == nt[0]);
            }
        },
    }
}

/// A boolean node's fragment holds the markers of its operands and no
/// others.
proof fn lemma_bool_frag_markers(fa: Seq<char>, fb: Seq<char>, op: Seq<char>)
    requires
        fa.len() > 0,
        fa[0] != '$',
        fa.last() != '$',
        fb.len() > 0,
        fb[0] != '$',
        fb.last() != '$',
        op.len() > 0,
        op[0] != '$',
        op.last() != '$',
        marker_count(op) == 0,
    ensures
        marker_count("("@ + fa + op + fb + ")"@) == marker_count(fa) + marker_count(fb),
        ("("@ + fa + op + fb + ")"@).len() > 0,
        ("("@ + fa + op + fb + ")"@)[0] != '$',
        ("("@ + fa + op + fb + ")"@).last() != '$',
{
    let lp = "("@;
    let rp = ")"@;
    reveal_strlit("(");
    reveal_strlit(")");
    assert(forall|i: int| 0 <= i < lp.len() ==> lp[i] != '$');
    lemma_no_marker(lp);
    assert(forall|i: int| 0 <= i < rp.len() ==> rp[i] != '$');
    lemma_no_marker(rp);
    let p1 = lp + fa;
    lemma_marker_concat(lp, fa);
    assert(p1.last() == fa.last());
    let p2 = p1 + op;
    lemma_marker_concat(p1, op);
    assert(p2.last() == op.last());
    let p3 = p2 + fb;
    lemma_marker_concat(p2, fb);
    assert(p3.last() == fb.last());
    let p4 = p3 + rp;
    lemma_marker_concat(p3, rp);
    assert(p4.last() == rp.last());
    assert(p4[0] == lp[0]);
}

/// What a filter compiles to under an optional capability: with no key
/// supplied, names and values pass through as raw bytes.
pub open spec fn filter_ct<E: EncryptionKey>(key: Option<&E>, q: &TagQuery) -> Option<CompiledV> {
    match key {
        Some(e) => compiled_of(e, q),
        None => compiled_of(&PlainEncryptor, q),
    }
}

/// Compiles an optional tag filter into a SQL boolean fragment ready to
/// splice into a statement: the tree is encoded under the optional
/// encryption capability, and the fragment's markers are then rewritten
/// starting one past the `offset` arguments already bound, so filter
/// placeholders never collide with earlier ones. Returns the rewritten
/// fragment with its ciphertext arguments; `None` in, `None` out; the
/// first refused encryption aborts with an error and no partial output.
pub fn encode_tag_filter<Q: QueryPrepare + ?Sized, E: EncryptionKey>(
    tag_filter: Option<&TagQuery>,
    key: Option<&E>,
    offset: usize,
) -> (r: Result<Option<(String, Vec<Vec<u8>>)>, KvError>)
    requires
        tag_filter matches Some(q) ==> offset + leaf_value_count(q) + 1 <= i64::MAX,
    ensures
        tag_filter is None ==> (r matches Ok(rr) && rr is None),
        tag_filter matches Some(q) ==> match filter_ct(key, q) {
            Some(c) => (r matches Ok(rr) && rr matches Some(f) && f.0@ == rewritten::<Q>(
                c.frag,
                offset as int + 1,
            ) && bytes_view(f.1) == c.args),
            None => (r matches Err(err) && err == KvError::Encryption),
        },
{
    match tag_filter {
        None => Ok(None),
        Some(q) => {
            let compiled = match key {
                Some(k) => encode_query(k, q),
                None => {
                    let plain = PlainEncryptor;
                    let r = encode_query(&plain, q);
                    proof {
                        assert(plain == PlainEncryptor);
                    }
                    r
                },
            };
            match compiled {
                Ok((frag, args)) => {
                    proof {
                        match key {
                            Some(k) => lemma_compiled_markers(k, q),
                            None => lemma_compiled_markers(&PlainEncryptor, q),
                        }
                    }
                    let (rw, _next_idx) = replace_arg_placeholders::<Q>(
                        frag.as_str(),
                        offset as i64 + 1,
                    );
                    Ok(Some((rw, args)))
                },
                Err(err) => Err(err),
            }
        },
    }
}

/// The determinism law: compiling the same tag-query tree twice under
/// the same encryption capability yields byte-identical compiled
/// filters — the fragment and every argument agree.
pub proof fn lemma_compile_deterministic<E: EncryptionKey>(
    e: &E,
    q: &TagQuery,
    r1: CompiledV,
    r2: CompiledV,
)
    requires
        compiled_of(e, q) == Some(r1),
        compiled_of(e, q) == Some(r2),
    ensures
        r1 == r2,
{
}

} // verus!
