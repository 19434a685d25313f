//! Derivation of snake_case names from tag identifiers.
//!
//! Handler-parameter names are derived from tag identifiers by lowercasing
//! every letter and putting an underscore in front of each capital letter
//! that does not stand first. Only the ASCII capitals act as word
//! boundaries; identifiers are expected to consist of ASCII letters.

use vstd::prelude::*;
use vstd::string::StrSliceExecFns;

verus! {

/// True exactly for the ASCII capital letters `'A'..='Z'`.
pub open spec fn spec_is_ascii_upper(c: char) -> bool {
    65 <= c as u32 && c as u32 <= 90
}

/// ASCII lowercasing: a capital letter moves down by 32 code points,
/// every other character stays as it is.
pub open spec fn spec_lower(c: char) -> char {
    if spec_is_ascii_upper(c) {
        ((c as u32 + 32) as char)
    } else {
        c
    }
}

/// The output piece for the character `c` standing at position `i`:
/// a capital letter after the first position gets a preceding underscore,
/// and every character is lowercased.
pub open spec fn snake_piece(c: char, i: int) -> Seq<char> {
    if spec_is_ascii_upper(c) && i > 0 {
        seq!['_', spec_lower(c)]
    } else {
        seq![spec_lower(c)]
    }
}

/// The snake_case form of `s`: the concatenation of the output pieces of
/// all characters, in order.
pub open spec fn spec_to_snake_case(s: Seq<char>) -> Seq<char>
    decreases s.len(),
{
    if s.len() == 0 {
        Seq::empty()
    } else {
        spec_to_snake_case(s.drop_last()) + snake_piece(s.last(), s.len() - 1)
    }
}

/// Relies on `String::push`: appends exactly the given character.
#[verifier::external_body]
fn push_char(s: &mut String, c: char)
    ensures
        final(s)@ == old(s)@.push(c),
{
    s.push(c);
}

fn is_ascii_upper(c: char) -> (r: bool)
    ensures
        r == spec_is_ascii_upper(c),
{
    let u = c as u32;
    65 <= u && u <= 90
}

fn lower(c: char) -> (r: char)
    ensures
        r == spec_lower(c),
{
    let u = c as u32;
    if 65 <= u && u <= 90 {
        ((u + 32) as u8) as char
    } else {
        c
    }
}

/// The snake_case form of an identifier, e.g. `"FooBar"` becomes
/// `"foo_bar"`.
pub fn to_snake_case(s: &str) -> (r: String)
    ensures
        r@ == spec_to_snake_case(s@),
{
    let n = s.unicode_len();
    let mut out = String::new();
    let mut i: usize = 0;
    while i < n
        invariant
            n == s@.len(),
            i <= n,
            out@ == spec_to_snake_case(s@.take(i as int)),
        decreases n - i,
    {
        let c = s.get_char(i);
        proof {
            assert(s@.take(i + 1).drop_last() =~= s@.take(i as int));
            assert(s@.take(i + 1).last() == s@[i as int]);
        }
        let ghost prev = out@;
        if i > 0 && is_ascii_upper(c) {
            push_char(&mut out, '_');
            push_char(&mut out, lower(c));
            proof {
                assert(out@ =~= prev + snake_piece(s@[i as int], i as int));
            }
        } else {
            push_char(&mut out, lower(c));
            proof {
                assert(out@ =~= prev + snake_piece(s@[i as int], i as int));
            }
        }
        i += 1;
    }
    proof {
        assert(s@.take(n as int) =~= s@);
    }
    out
}

/// True when no character of `s` is an ASCII capital letter.
pub open spec fn no_ascii_upper(s: Seq<char>) -> bool {
    forall|j: int| 0 <= j < s.len() ==> !spec_is_ascii_upper(#[trigger] s[j])
}

proof fn lemma_snake_case_no_upper(s: Seq<char>)
    ensures
        no_ascii_upper(spec_to_snake_case(s)),
    decreases s.len(),
{
    if s.len() > 0 {
        lemma_snake_case_no_upper(s.drop_last());
        let r = spec_to_snake_case(s.drop_last());
        let p = snake_piece(s.last(), s.len() - 1);
        assert forall|j: int| 0 <= j < (r + p).len() implies !spec_is_ascii_upper((r + p)[j]) by {
            if j >= r.len() {
                assert((r + p)[j] == p[j - r.len()]);
            }
        }
    }
}

proof fn lemma_snake_case_fixed_point(s: Seq<char>)
    requires
        no_ascii_upper(s),
    ensures
        spec_to_snake_case(s) == s,
    decreases s.len(),
{
    if s.len() > 0 {
        assert(no_ascii_upper(s.drop_last()));
        lemma_snake_case_fixed_point(s.drop_last());
        assert(!spec_is_ascii_upper(s.last()));
        assert(spec_to_snake_case(s) =~= s);
    } else {
        assert(spec_to_snake_case(s) =~= s);
    }
}

/// Law: the derivation is idempotent on form. A derived name holds no
/// capital letter, so deriving it again leaves every underscore boundary
/// and every letter unchanged.
pub proof fn lemma_to_snake_case_idempotent(s: Seq<char>)
    ensures
        spec_to_snake_case(spec_to_snake_case(s)) == spec_to_snake_case(s),
{
    lemma_snake_case_no_upper(s);
    lemma_snake_case_fixed_point(spec_to_snake_case(s));
}

} // verus!
