//! Paths: names separated by `/`.
use vstd::prelude::*;

use vstd::string::StringSliceAdditionalSpecFns;
use vstd::utf8::{
    encode_utf8, encode_utf8_valid_utf8, is_char_boundary, is_char_boundary_iff_not_is_continuation_byte,
    valid_utf8,
};

verus! {

/// The byte of `/`.
pub const SEPARATOR: u8 = 0x2f;

/// The position of the first `/` in `s` from position `i` on.
pub open spec fn separator_from(s: Seq<u8>, i: int) -> Option<int>
    decreases s.len() - i,
{
    if i < 0 || i >= s.len() {
        None
    } else if s[i] == SEPARATOR {
        Some(i)
    } else {
        separator_from(s, i + 1)
    }
}

/// The parts of `s` between its `/`s, in order: one more than there are `/`s.
pub open spec fn split_parts(s: Seq<u8>) -> Seq<Seq<u8>>
    decreases s.len(),
{
    match separator_from(s, 0) {
        Some(i) => if 0 <= i < s.len() {
            seq![s.subrange(0, i)] + split_parts(s.subrange(i + 1, s.len() as int))
        } else {
            seq![s]
        },
        None => seq![s],
    }
}

proof fn lemma_separator_from(s: Seq<u8>, i: int)
    requires
        0 <= i,
    ensures
        separator_from(s, i) matches Some(j) ==> i <= j < s.len() && s[j] == SEPARATOR && forall|
            k: int,
        |
            i <= k < j ==> s[k] != SEPARATOR,
        separator_from(s, i) is None ==> forall|k: int| i <= k < s.len() ==> s[k] != SEPARATOR,
    decreases s.len() - i,
{
    if i < s.len() {
        lemma_separator_from(s, i + 1);
    }
}

/// The parts joined back with `/` between them.
pub open spec fn join_parts(parts: Seq<Seq<u8>>) -> Seq<u8>
    decreases parts.len(),
{
    if parts.len() <= 1 {
        if parts.len() == 1 {
            parts[0]
        } else {
            Seq::empty()
        }
    } else {
        parts[0] + seq![SEPARATOR] + join_parts(parts.drop_first())
    }
}

/// Splitting a path at its `/`s and joining the parts back with `/` gives
/// the path back; no part holds a `/`.
pub proof fn lemma_split_join(s: Seq<u8>)
    ensures
        join_parts(split_parts(s)) == s,
        forall|k: int, j: int|
            0 <= k < split_parts(s).len() && 0 <= j < split_parts(s)[k].len() ==> #[trigger] split_parts(
                s,
            )[k][j] != SEPARATOR,
    decreases s.len(),
{
    lemma_separator_from(s, 0);
    match separator_from(s, 0) {
        Some(i) => {
            let rest = s.subrange(i + 1, s.len() as int);
            lemma_split_join(rest);
            let parts = split_parts(s);
            assert(parts == seq![s.subrange(0, i)] + split_parts(rest));
            assert(parts.drop_first() =~= split_parts(rest));
            assert(split_parts(rest).len() >= 1) by {
                lemma_separator_from(rest, 0);
            }
            assert(s =~= s.subrange(0, i) + seq![SEPARATOR] + rest);
            assert forall|k: int, j: int|
                0 <= k < parts.len() && 0 <= j < parts[k].len() implies #[trigger] parts[k][j]
                != SEPARATOR by {
                if k > 0 {
                    assert(parts[k] == split_parts(rest)[k - 1]);
                }
            }
        },
        None => {},
    }
}

/// A path.
pub struct Path {
    path: String,
}

impl View for Path {
    type V = Seq<char>;

    closed spec fn view(&self) -> Seq<char> {
        self.path@
    }
}

impl Path {
    /// The bytes of the path.
    pub closed spec fn spec_bytes(&self) -> Seq<u8> {
        encode_utf8(self.path@)
    }

    pub fn new(path: &str) -> (r: Self)
        ensures
            r@ == path@,
            r.spec_bytes() == path.spec_bytes(),
    {
        Path { path: path.to_owned() }
    }

    /// The names between the path's `/`s, in order.
    pub fn split(&self) -> (r: Vec<&str>)
        ensures
            r@.len() == split_parts(self.spec_bytes()).len(),
            forall|k: int|
                0 <= k < r@.len() ==> (#[trigger] r@[k]).spec_bytes() == split_parts(
                    self.spec_bytes(),
                )[k],
    {
        let whole: &str = self.path.as_str();
        let ghost all = whole.spec_bytes();
        let mut rest: &str = whole;
        let mut parts: Vec<&str> = Vec::new();
        let ghost mut done: Seq<Seq<u8>> = Seq::empty();
        loop
            invariant_except_break
                split_parts(all) == done + split_parts(rest.spec_bytes()),
            invariant
                parts@.len() == done.len(),
                forall|k: int| 0 <= k < parts@.len() ==> (#[trigger] parts@[k]).spec_bytes() == done[k],
            ensures
                split_parts(all) == done,
                parts@.len() == done.len(),
                forall|k: int| 0 <= k < parts@.len() ==> (#[trigger] parts@[k]).spec_bytes() == done[k],
            decreases rest.spec_bytes().len(),
        {
            let bytes = rest.as_bytes();
            let ghost rb = rest.spec_bytes();
            let mut i: usize = 0;
            while i < bytes.len() && bytes[i] != SEPARATOR
                invariant
                    bytes@ == rb,
                    i <= rb.len(),
                    separator_from(rb, 0) == separator_from(rb, i as int),
                decreases rb.len() - i,
            {
                i = i + 1;
            }
            if i == bytes.len() {
                proof {
                    assert(split_parts(rb) == seq![rb]);
                    assert(done + seq![rb] =~= done.push(rb));
                    done = done.push(rb);
                }
                parts.push(rest);
                break;
            }
            proof {
                lemma_separator_from(rb, 0);
                encode_utf8_valid_utf8(rest@);
                assert(valid_utf8(rb));
                is_char_boundary_iff_not_is_continuation_byte(rb, i as int);
            }
            let (head, tail) = rest.split_at(i);
            proof {
                let tb = tail.spec_bytes();
                assert(tb[0] == SEPARATOR);
                encode_utf8_valid_utf8(tail@);
                assert(valid_utf8(tb));
                reveal_with_fuel(is_char_boundary, 2);
                assert(is_char_boundary(tb, 1));
            }
            let (_separator, after) = tail.split_at(1);
            proof {
                let tb = tail.spec_bytes();
                assert(after.spec_bytes() =~= rb.subrange(i + 1, rb.len() as int));
                assert(split_parts(rb) == seq![rb.subrange(0, i as int)] + split_parts(
                    after.spec_bytes(),
                ));
                assert(done + split_parts(rb) =~= done.push(head.spec_bytes()) + split_parts(
                    after.spec_bytes(),
                ));
                done = done.push(head.spec_bytes());
            }
            parts.push(head);
            rest = after;
        }
        parts
    }
}

} // verus!
