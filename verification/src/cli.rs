//! Command-line flags of the form `--name value` or `--name=value`.

use vstd::prelude::*;
use crate::text::{views, chars_of, chars_eq, starts_with, string_of};

verus! {

broadcast use vstd::seq_lib::group_seq_properties;

/// The value given for flag `f` in `args`: scanning from the left, the
/// first argument equal to `f` yields the argument after it (none if it is
/// the last), and the first argument starting with `f=` yields the rest of it.
pub open spec fn flag_value(args: Seq<Seq<char>>, f: Seq<char>) -> Option<Seq<char>>
    decreases args.len(),
{
    if args.len() == 0 {
        None
    } else if args[0] == f {
        if args.len() > 1 {
            Some(args[1])
        } else {
            None
        }
    } else if (f + seq!['=']).is_prefix_of(args[0]) {
        Some(args[0].skip(f.len() + 1int))
    } else {
        flag_value(args.drop_first(), f)
    }
}

/// The value of command-line flag `f` in `args`.
pub fn flag(args: &[String], f: &str) -> (r: Option<String>)
    ensures
        r matches Some(v) ==> flag_value(views(args@), f@) == Some(v@),
        r is None ==> flag_value(views(args@), f@) is None,
{
    let fc = chars_of(f);
    let mut fe = fc.clone();
    fe.push('=');
    let ghost all = views(args@);
    let mut i: usize = 0;
    proof {
        assert(all.skip(0) =~= all);
    }
    while i < args.len()
        invariant
            i <= args@.len(),
            all == views(args@),
            fc@ == f@,
            fe@ == f@ + seq!['='],
            flag_value(all, f@) == flag_value(all.skip(i as int), f@),
        decreases args@.len() - i,
    {
        let a = chars_of(args[i].as_str());
        let ghost rest = all.skip(i as int);
        proof {
            assert(rest[0] == a@);
            assert(rest.drop_first() =~= all.skip(i + 1));
        }
        if chars_eq(a.as_slice(), fc.as_slice()) {
            if i + 1 < args.len() {
                proof {
                    assert(rest[1] == args@[i + 1]@);
                }
                return Some(args[i + 1].clone());
            } else {
                return None;
            }
        }
        if starts_with(a.as_slice(), fe.as_slice()) {
            let mut tail: Vec<char> = Vec::new();
            let mut j: usize = fe.len();
            while j < a.len()
                invariant
                    fe@.len() <= j <= a@.len(),
                    tail@ == a@.subrange(fe@.len() as int, j as int),
                decreases a@.len() - j,
            {
                tail.push(a[j]);
                proof {
                    assert(a@.subrange(fe@.len() as int, j + 1) =~= a@.subrange(fe@.len() as int, j as int).push(a@[j as int]));
                }
                j = j + 1;
            }
            proof {
                assert(tail@ =~= a@.skip(f@.len() + 1int));
            }
            return Some(string_of(tail.as_slice()));
        }
        i = i + 1;
    }
    None
}

/// The standard library's owned file-system path, carried through unread.
#[verifier::external_type_specification]
#[verifier::external_body]
pub struct ExPathBuf(std::path::PathBuf);

/// Takes a path and leaves it as it is; it marks the path type as used by
/// the runner.
pub fn _touch(_path: &std::path::PathBuf) {
}

} // verus!
