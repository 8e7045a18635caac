//! Arguments baked into a package: joined with the unit separator 0x1F.

use crate::text::{field_text, text_of};
use vstd::prelude::*;
use vstd::string::StrSliceExecFns;
use vstd::utf8::{decode_utf8, valid_utf8};

verus! {

/// The separator between baked arguments.
pub const ARGUMENT_SEPARATOR: u8 = 0x1f;

/// `s` without leading and trailing white space.
pub uninterp spec fn trimmed(s: Seq<char>) -> Seq<char>;

/// Relies on `std::str::from_utf8`: it accepts exactly the valid UTF-8
/// byte strings and yields the characters they encode.
#[verifier::external_body]
fn utf8_text(b: &[u8]) -> (r: Option<&str>)
    ensures
        r is Some <==> valid_utf8(b@),
        r matches Some(s) ==> s@ == decode_utf8(b@),
{
    std::str::from_utf8(b).ok()
}

/// Relies on `str::trim`: the result depends on the characters alone.
#[verifier::external_body]
fn trim(s: &str) -> (r: String)
    ensures
        r@ == trimmed(s@),
{
    s.trim().to_string()
}

/// The pieces of `s` between separators, after `i` bytes: the pieces
/// finished so far and the one being read.
pub open spec fn split_state(s: Seq<u8>, i: int) -> (Seq<Seq<u8>>, Seq<u8>)
    decreases i,
{
    if i <= 0 {
        (Seq::empty(), Seq::empty())
    } else {
        let prev = split_state(s, i - 1);
        if s[i - 1] == ARGUMENT_SEPARATOR {
            (prev.0.push(prev.1), Seq::empty())
        } else {
            (prev.0, prev.1.push(s[i - 1]))
        }
    }
}

/// The pieces of `s` between separators.
pub open spec fn split_fields(s: Seq<u8>) -> Seq<Seq<u8>> {
    split_state(s, s.len() as int).0.push(split_state(s, s.len() as int).1)
}

/// One baked argument: its piece decoded and trimmed.
pub open spec fn argument_of(piece: Seq<u8>) -> Seq<char> {
    trimmed(decode_utf8(piece))
}

/// The arguments of `pieces` that are not empty once trimmed, in order.
pub open spec fn kept_arguments(pieces: Seq<Seq<u8>>) -> Seq<Seq<char>>
    decreases pieces.len(),
{
    if pieces.len() == 0 {
        Seq::empty()
    } else {
        let prev = kept_arguments(pieces.drop_last());
        let a = argument_of(pieces.last());
        if a.len() > 0 {
            prev.push(a)
        } else {
            prev
        }
    }
}

/// Every piece is valid UTF-8.
pub open spec fn all_utf8(pieces: Seq<Seq<u8>>) -> bool {
    forall|i: int| 0 <= i < pieces.len() ==> valid_utf8(#[trigger] pieces[i])
}

/// Adds the argument of `piece` to `args` where it is not empty.
fn keep_argument(args: &mut Vec<String>, piece: &[u8]) -> (ok: bool)
    ensures
        ok == valid_utf8(piece@),
        ok ==> final(args)@.map_values(|a: String| a@) == if argument_of(piece@).len() > 0 {
            old(args)@.map_values(|a: String| a@).push(argument_of(piece@))
        } else {
            old(args)@.map_values(|a: String| a@)
        },
{
    match utf8_text(piece) {
        None => false,
        Some(s) => {
            let a = trim(s);
            if a.as_str().unicode_len() > 0 {
                let ghost before = args@.map_values(|a: String| a@);
                args.push(a);
                assert(args@.map_values(|a: String| a@) =~= before.push(argument_of(piece@)));
            }
            true
        },
    }
}

/// The baked arguments of a zero-padded field: its text split at each
/// separator, each piece trimmed, the empty ones left out; `None` where a
/// piece is not valid UTF-8.
pub fn baked_arguments(field: &[u8]) -> (r: Option<Vec<String>>)
    ensures
        r is Some <==> all_utf8(split_fields(text_of(field@))),
        r matches Some(v) ==> v@.map_values(|a: String| a@) == kept_arguments(
            split_fields(text_of(field@)),
        ),
{
    let text = field_text(field);
    let mut args: Vec<String> = Vec::new();
    let mut piece: Vec<u8> = Vec::new();
    let mut i: usize = 0;
    while i < text.len()
        invariant
            text@ == text_of(field@),
            i <= text@.len(),
            piece@ == split_state(text@, i as int).1,
            all_utf8(split_state(text@, i as int).0),
            args@.map_values(|a: String| a@) == kept_arguments(split_state(text@, i as int).0),
        decreases text@.len() - i,
    {
        let ghost prev = split_state(text@, i as int);
        if text[i] == ARGUMENT_SEPARATOR {
            if !keep_argument(&mut args, piece.as_slice()) {
                proof {
                    let k = prev.0.len() as int;
                    assert(split_state(text@, i as int + 1).0 == prev.0.push(prev.1));
                    assert(split_state(text@, i as int + 1).0[k] == prev.1);
                    lemma_split_prefix_le(text@, i as int + 1, text@.len() as int);
                    assert(split_fields(text@)[k] == prev.1);
                    assert(!valid_utf8(split_fields(text@)[k]));
                    assert(k < split_fields(text@).len());
                    assert(!all_utf8(split_fields(text@)));
                }
                return None;
            }
            assert(prev.0.push(prev.1).drop_last() =~= prev.0);
            piece = Vec::new();
        } else {
            piece.push(text[i]);
        }
        i = i + 1;
        assert(piece@ =~= split_state(text@, i as int).1);
        assert(all_utf8(split_state(text@, i as int).0));
    }
    let ghost last = split_state(text@, i as int);
    if !keep_argument(&mut args, piece.as_slice()) {
        assert(!valid_utf8(split_fields(text@)[last.0.len() as int]));
        return None;
    }
    assert(last.0.push(last.1).drop_last() =~= last.0);
    Some(args)
}

/// Finished pieces stay finished as reading goes on.
proof fn lemma_split_prefix(s: Seq<u8>, i: int, j: int)
    requires
        0 <= i <= j <= s.len(),
    ensures
        split_state(s, i).0.len() <= split_state(s, j).0.len(),
        forall|k: int|
            0 <= k < split_state(s, i).0.len() ==> split_state(s, j).0[k] == split_state(
                s,
                i,
            ).0[k],
    decreases j - i,
{
    if i < j {
        lemma_split_prefix(s, i, j - 1);
    }
}

/// The pieces finished after `i` bytes are pieces of the whole.
proof fn lemma_split_prefix_le(s: Seq<u8>, i: int, j: int)
    requires
        0 <= i <= j,
        j == s.len(),
    ensures
        forall|k: int|
            0 <= k < split_state(s, i).0.len() ==> split_fields(s)[k] == split_state(s, i).0[k],
        split_state(s, i).0.len() <= split_fields(s).len(),
{
    lemma_split_prefix(s, i, j);
}

} // verus!
