//! Composing one executable statement: pagination injection and the
//! extension of a base query with a compiled tag filter.

use vstd::prelude::*;

use crate::backend::{limit_fragment, QueryPrepare};
use crate::params::{Arg, ArgValue, QueryParams};
use crate::rewrite::{replace_arg_placeholders, rewritten};

verus! {

/// Appends a `LIMIT`/`OFFSET` clause to `query` when an offset or a
/// limit is given, binding the offset (default 0) and then the limit
/// (default -1, the convention for "unbounded") right after the
/// arguments already collected, and rewriting the clause's two markers
/// at the following indices. With neither bound present the query and
/// the collector are left unchanged.
pub fn limit_query<Q: QueryPrepare + ?Sized>(
    query: String,
    args: &mut QueryParams,
    offset: Option<i64>,
    limit: Option<i64>,
) -> (r: String)
    requires
        old(args)@.len() + 16 <= i64::MAX,
    ensures
        offset is None && limit is None ==> {
            &&& r@ == query@
            &&& final(args)@ == old(args)@
        },
        offset is Some || limit is Some ==> {
            &&& final(args)@ == old(args)@ + seq![
                ArgValue::Int(offset.unwrap_or(0 as i64) as int),
                ArgValue::Int(limit.unwrap_or(-1 as i64) as int),
            ]
            &&& r@ == query@ + rewritten::<Q>(limit_fragment(), old(args)@.len() as int + 1)
        },
{
    if offset.is_some() || limit.is_some() {
        let last_idx = args.len() as i64 + 1;
        args.push(Arg::Int(offset.unwrap_or(0)));
        args.push(Arg::Int(limit.unwrap_or(-1)));
        proof {
            reveal_strlit(" LIMIT $$, $$");
            crate::rewrite::lemma_marker_count_le_len(" LIMIT $$, $$"@);
        }
        let (clause, _next_idx) = replace_arg_placeholders::<Q>(" LIMIT $$, $$", last_idx);
        let mut query = query;
        query.append(clause.as_str());
        query
    } else {
        query
    }
}

/// The abstract value of a byte argument list, as collector entries.
pub open spec fn as_byte_args(bs: Seq<Seq<u8>>) -> Seq<ArgValue> {
    bs.map_values(|v: Seq<u8>| ArgValue::Bytes(v))
}

/// The text of a base query extended by an optional compiled filter
/// fragment.
pub open spec fn extended_text(query: Seq<char>, filter: Option<Seq<char>>) -> Seq<char> {
    match filter {
        Some(c) => query + " AND "@ + c,
        None => query,
    }
}

/// Extends a base query — one that already carries a `WHERE` anchor,
/// a documented caller responsibility — with an optional compiled tag
/// filter and pagination: the filter fragment is appended after
/// ` AND ` and its ciphertext arguments are bound first, then the
/// pagination clause is injected, so filter arguments always precede
/// pagination arguments.
pub fn extend_query<Q: QueryPrepare + ?Sized>(
    query: &str,
    args: &mut QueryParams,
    tag_filter: Option<(String, Vec<Vec<u8>>)>,
    offset: Option<i64>,
    limit: Option<i64>,
) -> (r: Result<String, crate::KvError>)
    requires
        old(args)@.len() + (match tag_filter {
            Some(f) => f.1@.len(),
            None => 0,
        }) + 16 <= i64::MAX,
    ensures
        r is Ok,
        ({
            let ext_args = match tag_filter {
                Some(f) => old(args)@ + as_byte_args(crate::filter::bytes_view(f.1)),
                None => old(args)@,
            };
            let ext_text = extended_text(
                query@,
                match tag_filter {
                    Some(f) => Some(f.0@),
                    None => None,
                },
            );
            &&& (offset is None && limit is None ==> (r matches Ok(out) && out@ == ext_text
                && final(args)@ == ext_args))
            &&& (offset is Some || limit is Some ==> (r matches Ok(out) && final(args)@
                == ext_args + seq![
                ArgValue::Int(offset.unwrap_or(0 as i64) as int),
                ArgValue::Int(limit.unwrap_or(-1 as i64) as int),
            ] && out@ == ext_text + rewritten::<Q>(limit_fragment(), ext_args.len() as int + 1)))
        }),
{
    let mut text = String::from_str(query);
    match tag_filter {
        Some((clause, fargs)) => {
            let ghost fb = crate::filter::bytes_view(fargs);
            let ghost total = as_byte_args(fb);
            let mut rest = fargs;
            let mut wrapped: Vec<Arg> = Vec::new();
            while rest.len() > 0
                invariant
                    rest@.len() <= fb.len(),
                    total == as_byte_args(fb),
                    total.len() == fb.len(),
                    rest@.map_values(|v: Vec<u8>| v@) =~= fb.skip(fb.len() - rest@.len()),
                    wrapped@.map_values(|a: Arg| a@) =~= total.take(fb.len() - rest@.len()),
                decreases rest@.len(),
            {
                let ghost k = fb.len() - rest@.len();
                let ghost rest0 = rest@;
                let b = rest.remove(0);
                proof {
                    assert(rest0.map_values(|v: Vec<u8>| v@)[0] == b@);
                    assert(b@ == fb[k as int]);
                    let rm = rest@.map_values(|v: Vec<u8>| v@);
                    assert forall|j: int| 0 <= j < rest@.len() implies rm[j] == #[trigger] fb.skip(
                        fb.len() - rest@.len(),
                    )[j] by {
                        assert(rest@[j] == rest0[j + 1]);
                        assert(rest0.map_values(|v: Vec<u8>| v@)[j + 1] == rest0[j + 1]@);
                    }
                    assert(rest@.map_values(|v: Vec<u8>| v@) =~= fb.skip(
                        fb.len() - rest@.len(),
                    ));
                }
                let ghost wrapped0 = wrapped@;
                wrapped.push(Arg::Bytes(b));
                proof {
                    wrapped0.lemma_push_map_commute(|a: Arg| a@, Arg::Bytes(b));
                    assert(Arg::Bytes(b)@ == total[k as int]);
                    assert(total.take(fb.len() - rest@.len()) =~= total.take(k as int).push(
                        total[k as int],
                    ));
                    assert(wrapped@.map_values(|a: Arg| a@) =~= total.take(
                        fb.len() - rest@.len(),
                    ));
                }
            }
            proof {
                assert(total.take(fb.len() as int) =~= total);
            }
            args.extend(wrapped);
            text.append(" AND ");
            text.append(clause.as_str());
            let out = limit_query::<Q>(text, args, offset, limit);
            Ok(out)
        },
        None => {
            let out = limit_query::<Q>(text, args, offset, limit);
            Ok(out)
        },
    }
}

/// The argument-ordering law: a statement built from a tag filter with
/// two literal values and pagination with both bounds binds exactly
/// four arguments — the two filter ciphertexts in fragment order, then
/// the offset, then the limit. Together with `extend_query`'s contract
/// this pins the final argument list of such a statement.
pub proof fn lemma_argument_order<E: crate::encrypt::EncryptionKey>(
    e: &E,
    q: &crate::filter::TagQuery,
    c: crate::filter::CompiledV,
    off: i64,
    lim: i64,
)
    requires
        crate::filter::leaf_value_count(q) == 2,
        crate::filter::compiled_of(e, q) == Some(c),
    ensures
        c.args.len() == 2,
        as_byte_args(c.args) + seq![ArgValue::Int(off as int), ArgValue::Int(lim as int)] =~= seq![
            ArgValue::Bytes(c.args[0]),
            ArgValue::Bytes(c.args[1]),
            ArgValue::Int(off as int),
            ArgValue::Int(lim as int),
        ],
{
    crate::filter::lemma_compiled_markers(e, q);
}

} // verus!
