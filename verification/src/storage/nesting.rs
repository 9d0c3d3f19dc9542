//! How deeply CBOR items nest in a byte string, found by one iterative scan.
//!
//! A decoder that recurses once per nesting level needs stack in proportion
//! to the depth of its input; the envelope readers are only handed bytes
//! whose depth this scan has bounded.

use vstd::prelude::*;

use crate::auth::cbor::{be_value, read_be};

verus! {

/// The deepest nesting an envelope handed to the decoder may have.
pub const MAX_ENVELOPE_NESTING: usize = 96;

/// The number of argument bytes after a head's first byte, by its additional
/// information; -1 where the form is not allowed.
pub open spec fn arg_size(info: u8) -> int {
    if info < 24 {
        0
    } else if info == 24 {
        1
    } else if info == 25 {
        2
    } else if info == 26 {
        4
    } else if info == 27 {
        8
    } else {
        -1
    }
}

/// The head at `pos`: its major type, its argument, and where the next head
/// starts (after the payload of a byte or text string). `None` where the
/// head is malformed or runs past the end.
pub open spec fn head_step(b: Seq<u8>, pos: int) -> Option<(u8, u64, int)> {
    let first: u8 = b[pos];
    let major: u8 = first / 32;
    let info: u8 = first % 32;
    let sz: int = arg_size(info);
    if sz < 0 || pos + 1 + sz > b.len() {
        None
    } else {
        let arg: u64 = if info < 24 {
            info as u64
        } else {
            be_value(b.subrange(pos + 1, pos + 1 + sz)) as u64
        };
        let hend: int = pos + 1 + sz;
        if major == 2 || major == 3 {
            if hend + arg > b.len() {
                None
            } else {
                Some((major, arg, hend + arg))
            }
        } else {
            Some((major, arg, hend))
        }
    }
}

/// The items a head opens: an array its elements, a map its keys and values,
/// a tag its tagged item; none for anything else.
pub open spec fn children(major: u8, arg: u64) -> u64 {
    if major == 4 {
        arg
    } else if major == 5 {
        if arg > 0x7fff_ffff_ffff_ffff {
            0xffff_ffff_ffff_ffff
        } else {
            (2 * arg) as u64
        }
    } else if major == 6 {
        1
    } else {
        0
    }
}

/// The open containers after one more item of the innermost is read.
pub open spec fn consume(st: Seq<u64>) -> Seq<u64> {
    if st.len() == 0 {
        st
    } else if st.last() > 0 {
        st.drop_last().push((st.last() - 1) as u64)
    } else {
        st
    }
}

/// The open containers once those with no items left are closed.
pub open spec fn close(st: Seq<u64>) -> Seq<u64>
    decreases st.len(),
{
    if st.len() > 0 && st.last() == 0 {
        close(st.drop_last())
    } else {
        st
    }
}

/// From `pos` on, with the containers `st` open (the count of items each
/// still holds, innermost last), no item opens more than `max` containers
/// around its contents. The scan stops where the input is malformed.
pub open spec fn nesting_ok_from(b: Seq<u8>, pos: int, st: Seq<u64>, max: nat) -> bool
    decreases b.len() - pos,
{
    if pos < 0 || pos >= b.len() {
        true
    } else {
        match head_step(b, pos) {
            None => true,
            Some((major, arg, next)) => {
                let st1 = consume(st);
                let kids: u64 = children(major, arg);
                if kids > 0 {
                    st1.len() + 1 <= max && nesting_ok_from(b, next, st1.push(kids), max)
                } else {
                    nesting_ok_from(b, next, close(st1), max)
                }
            },
        }
    }
}

/// No CBOR item in the bytes nests deeper than `max` containers.
pub open spec fn nesting_ok(b: Seq<u8>, max: nat) -> bool {
    nesting_ok_from(b, 0, Seq::empty(), max)
}

/// The bytes nest shallowly enough to be handed to an envelope decoder.
pub open spec fn envelope_nesting_ok(b: Seq<u8>) -> bool {
    nesting_ok(b, MAX_ENVELOPE_NESTING as nat)
}

/// A bound on the nesting holds for every larger bound.
pub proof fn lemma_nesting_mono(b: Seq<u8>, pos: int, st: Seq<u64>, m1: nat, m2: nat)
    requires
        nesting_ok_from(b, pos, st, m1),
        m1 <= m2,
    ensures
        nesting_ok_from(b, pos, st, m2),
    decreases b.len() - pos,
{
    if 0 <= pos < b.len() {
        match head_step(b, pos) {
            None => {},
            Some((major, arg, next)) => {
                let st1 = consume(st);
                let kids: u64 = children(major, arg);
                if kids > 0 {
                    lemma_nesting_mono(b, next, st1.push(kids), m1, m2);
                } else {
                    lemma_nesting_mono(b, next, close(st1), m1, m2);
                }
            },
        }
    }
}

/// Whether no CBOR item in the bytes nests deeper than `max` containers.
pub fn cbor_nesting_within(b: &[u8], max: usize) -> (r: bool)
    ensures
        r == nesting_ok(b@, max as nat),
{
    let mut pos: usize = 0;
    let mut stack: Vec<u64> = Vec::new();
    while pos < b.len()
        invariant
            pos <= b@.len(),
            b@.len() == b.len(),
            nesting_ok_from(b@, pos as int, stack@, max as nat) == nesting_ok(b@, max as nat),
        decreases b.len() - pos,
    {
        let first: u8 = b[pos];
        let major: u8 = first / 32;
        let info: u8 = first % 32;
        let sz: usize = if info < 24 {
            0
        } else if info == 24 {
            1
        } else if info == 25 {
            2
        } else if info == 26 {
            4
        } else if info == 27 {
            8
        } else {
            return true;
        };
        if sz >= b.len() - pos {
            return true;
        }
        let arg: u64 = if info < 24 {
            info as u64
        } else {
            read_be(b, pos + 1, sz)
        };
        let mut next: usize = pos + 1 + sz;
        if major == 2 || major == 3 {
            if arg > (b.len() - next) as u64 {
                return true;
            }
            next = next + arg as usize;
        }
        proof {
            assert(head_step(b@, pos as int) == Some((major, arg, next as int)));
        }
        let ghost st = stack@;
        if stack.len() > 0 {
            let last: usize = stack.len() - 1;
            let t: u64 = stack[last];
            if t > 0 {
                stack.set(last, t - 1);
            }
        }
        proof {
            assert(stack@ =~= consume(st));
        }
        let kids: u64 = if major == 4 {
            arg
        } else if major == 5 {
            if arg > 0x7fff_ffff_ffff_ffff {
                0xffff_ffff_ffff_ffff
            } else {
                2 * arg
            }
        } else if major == 6 {
            1
        } else {
            0
        };
        if kids > 0 {
            if stack.len() >= max {
                return false;
            }
            stack.push(kids);
        } else {
            while stack.len() > 0 && stack[stack.len() - 1] == 0
                invariant
                    close(stack@) == close(consume(st)),
                decreases stack.len(),
            {
                stack.pop();
            }
        }
        pos = next;
    }
    true
}

} // verus!
