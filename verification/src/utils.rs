//! Character-level text helpers: Unicode whitespace classification, random
//! access to the characters of a string, and whitespace stripping.

use vstd::prelude::*;
use vstd::string::StrSliceExecFns;

verus! {

/// The Unicode `White_Space` set, the characters `char::is_whitespace`
/// accepts.
pub open spec fn is_unicode_ws(c: char) -> bool {
    ||| 9 <= c as int <= 13
    ||| c as int == 32
    ||| c as int == 0x85
    ||| c as int == 0xA0
    ||| c as int == 0x1680
    ||| 0x2000 <= c as int <= 0x200A
    ||| c as int == 0x2028
    ||| c as int == 0x2029
    ||| c as int == 0x202F
    ||| c as int == 0x205F
    ||| c as int == 0x3000
}

/// Tests for Unicode whitespace.
pub fn is_whitespace_char(c: char) -> (b: bool)
    ensures
        b == is_unicode_ws(c),
{
    let u = c as u32;
    (9 <= u && u <= 13) || u == 32 || u == 0x85 || u == 0xA0 || u == 0x1680 || (0x2000 <= u && u
        <= 0x200A) || u == 0x2028 || u == 0x2029 || u == 0x202F || u == 0x205F || u == 0x3000
}

/// Relies on `String::push`: appends exactly the given character.
#[verifier::external_body]
pub fn push_char(s: &mut String, c: char)
    ensures
        final(s)@ == old(s)@.push(c),
{
    s.push(c);
}

/// Copies the characters of `s` into a vector for random access.
pub fn to_chars(s: &str) -> (v: Vec<char>)
    ensures
        v@ == s@,
{
    let n = s.unicode_len();
    let mut v: Vec<char> = Vec::new();
    let mut i: usize = 0;
    while i < n
        invariant
            i <= n,
            n == s@.len(),
            v@ == s@.subrange(0, i as int),
        decreases n - i,
    {
        let c = s.get_char(i);
        v.push(c);
        i = i + 1;
        proof {
            assert(v@ =~= s@.subrange(0, i as int));
        }
    }
    proof {
        assert(s@.subrange(0, s@.len() as int) =~= s@);
    }
    v
}

/// The text with every Unicode whitespace character removed.
pub open spec fn strip_ws(s: Seq<char>) -> Seq<char> {
    s.filter(|c: char| !is_unicode_ws(c))
}

/// Removes every Unicode whitespace character from `input`.
pub fn strip_whitespace(input: &str) -> (r: String)
    ensures
        r@ == strip_ws(input@),
{
    let n = input.unicode_len();
    let mut r = String::new();
    let mut i: usize = 0;
    proof {
        reveal(Seq::filter);
        assert(input@.subrange(0, 0) =~= Seq::<char>::empty());
    }
    while i < n
        invariant
            i <= n,
            n == input@.len(),
            r@ == strip_ws(input@.subrange(0, i as int)),
        decreases n - i,
    {
        let c = input.get_char(i);
        if !is_whitespace_char(c) {
            push_char(&mut r, c);
        }
        i = i + 1;
        proof {
            reveal(Seq::filter);
            let prefix = input@.subrange(0, i as int);
            assert(prefix.drop_last() =~= input@.subrange(0, i - 1));
            assert(prefix.last() == c);
        }
    }
    proof {
        assert(input@.subrange(0, n as int) =~= input@);
    }
    r
}

} // verus!
