//! The argument collector: an append-only, ordered list of the values
//! bound to a statement's placeholders.

use vstd::prelude::*;

verus! {

/// The abstract value of one bound argument.
pub ghost enum ArgValue {
    Int(int),
    Bytes(Seq<u8>),
}

/// One bound query argument, in the shapes this crate binds: a signed
/// integer (pagination bounds) or raw bytes (ciphertext comparisons).
#[derive(PartialEq, Eq, Debug)]
pub enum Arg {
    Int(i64),
    Bytes(Vec<u8>),
}

impl View for Arg {
    type V = ArgValue;

    open spec fn view(&self) -> ArgValue {
        match self {
            Arg::Int(n) => ArgValue::Int(*n as int),
            Arg::Bytes(b) => ArgValue::Bytes(b@),
        }
    }
}

/// Ordered, append-only collection of the arguments bound so far while
/// one statement is being built. Arguments are never reordered or
/// removed, so their positions match the placeholder indices assigned
/// during rewriting.
pub struct QueryParams {
    args: Vec<Arg>,
}

impl View for QueryParams {
    type V = Seq<ArgValue>;

    closed spec fn view(&self) -> Seq<ArgValue> {
        self.args@.map_values(|a: Arg| a@)
    }
}

impl QueryParams {
    /// Creates an empty collector.
    pub fn new() -> (r: Self)
        ensures
            r@ == Seq::<ArgValue>::empty(),
    {
        Self { args: Vec::new() }
    }

    /// Appends one argument.
    pub fn push(&mut self, val: Arg)
        ensures
            final(self)@ == old(self)@.push(val@),
    {
        self.args.push(val);
        proof {
            assert(final(self)@ =~= old(self)@.push(val@));
        }
    }

    /// Appends a list of arguments, preserving its order.
    pub fn extend(&mut self, vals: Vec<Arg>)
        ensures
            final(self)@ == old(self)@ + vals@.map_values(|a: Arg| a@),
    {
        let ghost all = vals@;
        let mut vals = vals;
        // Move the items over one at a time, front first.
        while vals.len() > 0
            invariant
                vals@.len() <= all.len(),
                vals@ =~= all.skip(all.len() - vals@.len()),
                self@ =~= old(self)@ + all.take(all.len() - vals@.len()).map_values(
                    |a: Arg| a@,
                ),
            decreases vals@.len(),
        {
            let ghost k = all.len() - vals@.len();
            let item = vals.remove(0);
            proof {
                assert(item == all[k as int]);
            }
            self.push(item);
            proof {
                assert(vals@ =~= all.skip(all.len() - vals@.len()));
                assert(self@ =~= old(self)@ + all.take(all.len() - vals@.len()).map_values(
                    |a: Arg| a@,
                ));
            }
        }
        proof {
            assert(all.take(all.len() as int) =~= all);
        }
    }

    /// The number of arguments collected so far.
    pub fn len(&self) -> (r: usize)
        ensures
            r == self@.len(),
    {
        self.args.len()
    }

    /// Hands the accumulated arguments to the execution layer, in the
    /// order they were bound.
    pub fn into_arguments(self) -> (r: Vec<Arg>)
        ensures
            r@.map_values(|a: Arg| a@) == self@,
    {
        self.args
    }
}

} // verus!
