//! Bytes and the characters they stand for.
//!
//! The tokenizer reads text as bytes. Every lexeme is made of bytes below
//! 128, each of which is one character by itself.

use vstd::prelude::*;
use vstd::string::*;
use vstd::utf8::*;

verus! {

/// Every byte stands for a character by itself.
pub open spec fn all_ascii(bytes: Seq<u8>) -> bool {
    forall|i: int| 0 <= i < bytes.len() ==> #[trigger] bytes[i] < 128
}

/// The characters that a sequence of bytes below 128 stands for.
pub open spec fn ascii_text(bytes: Seq<u8>) -> Seq<char> {
    Seq::new(bytes.len(), |i: int| bytes[i] as char)
}

proof fn lemma_ascii_byte(b: u8)
    requires
        b < 128,
    ensures
        (b & 0x7F) as u32 == b as u32,
{
    assert(b < 128 ==> b & 0x7F == b) by (bit_vector);
}

/// Bytes below 128 are well-formed text, and decode to themselves.
pub proof fn lemma_decode_ascii(bytes: Seq<u8>)
    requires
        all_ascii(bytes),
    ensures
        valid_utf8(bytes),
        decode_utf8(bytes) == ascii_text(bytes),
    decreases bytes.len(),
{
    if bytes.len() > 0 {
        let rest = pop_first_scalar(bytes);
        assert(bytes[0] < 128);
        assert(rest == bytes.subrange(1, bytes.len() as int));
        assert forall|i: int| 0 <= i < rest.len() implies #[trigger] rest[i] < 128 by {
            assert(rest[i] == bytes[i + 1]);
        }
        lemma_decode_ascii(rest);
        lemma_ascii_byte(bytes[0]);
        assert(decode_first_scalar(bytes) == bytes[0] as u32);
        assert(decode_utf8(bytes) =~= ascii_text(bytes));
    } else {
        assert(decode_utf8(bytes) =~= ascii_text(bytes));
    }
}

/// The end of a run of bytes below 128 at the start of well-formed text
/// falls between two characters.
pub proof fn lemma_ascii_prefix_ends_at_boundary(bytes: Seq<u8>, n: int)
    requires
        valid_utf8(bytes),
        0 <= n <= bytes.len(),
        all_ascii(bytes.subrange(0, n)),
    ensures
        is_char_boundary(bytes, n),
    decreases n,
{
    if n > 0 {
        assert(bytes.subrange(0, n)[0] < 128);
        let rest = pop_first_scalar(bytes);
        assert(rest == bytes.subrange(1, bytes.len() as int));
        assert forall|i: int| 0 <= i < n - 1 implies #[trigger] rest.subrange(0, n - 1)[i]
            < 128 by {
            assert(rest.subrange(0, n - 1)[i] == bytes.subrange(0, n)[i + 1]);
        }
        lemma_ascii_prefix_ends_at_boundary(rest, n - 1);
    }
}

/// The part of `text` between two byte offsets, as a string of its own.
pub fn ascii_substring(text: &str, from: usize, to: usize) -> (part: String)
    requires
        from <= to <= text.spec_bytes().len(),
        all_ascii(text.spec_bytes().subrange(from as int, to as int)),
    ensures
        part@ == ascii_text(text.spec_bytes().subrange(from as int, to as int)),
{
    broadcast use {encode_utf8_valid_utf8, encode_utf8_decode_utf8};

    let ghost bytes = text.spec_bytes();
    let ghost wanted = bytes.subrange(from as int, to as int);
    if from == to {
        let part = String::new();
        assert(part@ =~= ascii_text(wanted));
        return part;
    }
    proof {
        assert(wanted[0] < 128);
        assert(bytes[from as int] == wanted[0]);
        is_char_boundary_iff_not_is_continuation_byte(bytes, from as int);
    }
    let (_, tail) = text.split_at(from);
    proof {
        assert(tail.spec_bytes().subrange(0, to - from) =~= wanted);
        lemma_ascii_prefix_ends_at_boundary(tail.spec_bytes(), to - from);
    }
    let (part, _) = tail.split_at(to - from);
    proof {
        assert(part.spec_bytes() =~= wanted);
        lemma_decode_ascii(wanted);
    }
    part.to_owned()
}

/// Whether two strings hold the same characters.
pub fn same_text(left: &str, right: &str) -> (same: bool)
    ensures
        same == (left@ == right@),
{
    broadcast use encode_utf8_decode_utf8;

    let a = left.as_bytes();
    let b = right.as_bytes();
    if a.len() != b.len() {
        return false;
    }
    let mut i: usize = 0;
    while i < a.len()
        invariant
            i <= a.len(),
            a.len() == b.len(),
            a@ == left.spec_bytes(),
            b@ == right.spec_bytes(),
            forall|k: int| 0 <= k < i ==> a@[k] == b@[k],
        decreases a.len() - i,
    {
        if a[i] != b[i] {
            return false;
        }
        i += 1;
    }
    proof {
        assert(a@ =~= b@);
        assert(decode_utf8(encode_utf8(left@)) == left@);
        assert(decode_utf8(encode_utf8(right@)) == right@);
    }
    true
}

} // verus!
