//! The built-in functions a fresh registry starts with.
use crate::ast::{Args, Value};
use crate::runtime::Function;
use vstd::prelude::*;

verus! {

/// The print builtin: consumes one argument, emits it to the output, and
/// returns no value — so it is legal only as a top-level statement. Called
/// with no argument it emits nothing.
pub struct Print;

impl Function for Print {
    open spec fn spec_run(&self, args: Seq<Value>) -> (Option<Value>, Seq<Value>) {
        (
            None,
            if args.len() >= 1 {
                seq![args[0]]
            } else {
                Seq::empty()
            },
        )
    }

    fn run(&self, args: &Args, out: &mut Vec<Value>) -> (r: Option<Value>) {
        if args.len() >= 1 {
            let v = args[0];
            out.push(v);
            proof {
                assert(out@ =~= old(out)@ + seq![args@[0]]);
            }
        } else {
            proof {
                assert(out@ =~= old(out)@ + Seq::<Value>::empty());
            }
        }
        None
    }
}

} // verus!
