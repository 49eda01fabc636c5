//! Character and string helpers: whitespace classification, trailing-whitespace
//! trimming, and prefix tests, all specified over `Seq<char>` views.

use vstd::prelude::*;

verus! {

/// The Unicode `White_Space` characters, the set `char::is_whitespace`
/// recognises: U+0009..U+000D, U+0020, U+0085, U+00A0, U+1680,
/// U+2000..U+200A, U+2028, U+2029, U+202F, U+205F and U+3000.
pub open spec fn is_ws_char(c: char) -> bool {
    ||| c == '\u{0009}'
    ||| c == '\u{000a}'
    ||| c == '\u{000b}'
    ||| c == '\u{000c}'
    ||| c == '\u{000d}'
    ||| c == '\u{0020}'
    ||| c == '\u{0085}'
    ||| c == '\u{00a0}'
    ||| c == '\u{1680}'
    ||| c == '\u{2000}'
    ||| c == '\u{2001}'
    ||| c == '\u{2002}'
    ||| c == '\u{2003}'
    ||| c == '\u{2004}'
    ||| c == '\u{2005}'
    ||| c == '\u{2006}'
    ||| c == '\u{2007}'
    ||| c == '\u{2008}'
    ||| c == '\u{2009}'
    ||| c == '\u{200a}'
    ||| c == '\u{2028}'
    ||| c == '\u{2029}'
    ||| c == '\u{202f}'
    ||| c == '\u{205f}'
    ||| c == '\u{3000}'
}

/// Decides `is_ws_char` on one character.
pub fn is_ws(c: char) -> (r: bool)
    ensures
        r == is_ws_char(c),
{
    c == '\u{0009}' || c == '\u{000a}' || c == '\u{000b}' || c == '\u{000c}' || c == '\u{000d}'
        || c == '\u{0020}' || c == '\u{0085}' || c == '\u{00a0}' || c == '\u{1680}'
        || c == '\u{2000}' || c == '\u{2001}' || c == '\u{2002}' || c == '\u{2003}'
        || c == '\u{2004}' || c == '\u{2005}' || c == '\u{2006}' || c == '\u{2007}'
        || c == '\u{2008}' || c == '\u{2009}' || c == '\u{200a}' || c == '\u{2028}'
        || c == '\u{2029}' || c == '\u{202f}' || c == '\u{205f}' || c == '\u{3000}'
}

/// `s` without its trailing whitespace, the view `str::trim_end` leaves.
pub open spec fn trim_end_spec(s: Seq<char>) -> Seq<char>
    decreases s.len(),
{
    if s.len() == 0 {
        s
    } else if is_ws_char(s.last()) {
        trim_end_spec(s.drop_last())
    } else {
        s
    }
}

/// Removes trailing whitespace from a line, as `str::trim_end` does.
pub fn trim_end(s: &str) -> (r: String)
    ensures
        r@ == trim_end_spec(s@),
{
    let n = s.unicode_len();
    let mut keep: usize = n;
    proof {
        assert(s@.take(n as int) =~= s@);
    }
    loop
        invariant_except_break
            keep <= n,
            s@.len() == n as nat,
            trim_end_spec(s@) == trim_end_spec(s@.take(keep as int)),
        ensures
            keep <= n,
            s@.len() == n as nat,
            trim_end_spec(s@) == s@.take(keep as int),
        decreases keep,
    {
        if keep == 0 {
            proof {
                assert(s@.take(0) =~= Seq::<char>::empty());
            }
            break;
        }
        let c = s.get_char(keep - 1);
        proof {
            assert(s@.take(keep as int).last() == s@[keep - 1]);
        }
        if !is_ws(c) {
            break;
        }
        proof {
            assert(s@.take(keep as int).drop_last() =~= s@.take(keep - 1));
        }
        keep = keep - 1;
    }
    let kept = s.substring_char(0, keep);
    proof {
        assert(s@.subrange(0, keep as int) == s@.take(keep as int));
    }
    String::from_str(kept)
}

/// True exactly when `s` is non-empty and begins with `c`.
pub fn first_char_is(s: &str, c: char) -> (r: bool)
    ensures
        r == (s@.len() > 0 && s@[0] == c),
{
    if s.unicode_len() == 0 {
        false
    } else {
        s.get_char(0) == c
    }
}

/// Decides whether `p` is a (character) prefix of `s`.
pub fn str_is_prefix(p: &str, s: &str) -> (r: bool)
    ensures
        r == p@.is_prefix_of(s@),
{
    let plen = p.unicode_len();
    let slen = s.unicode_len();
    if plen > slen {
        return false;
    }
    let mut i: usize = 0;
    while i < plen
        invariant
            i <= plen,
            plen <= slen,
            p@.len() == plen as nat,
            s@.len() == slen as nat,
            forall|j: int| 0 <= j < i ==> p@[j] == s@[j],
        decreases plen - i,
    {
        if p.get_char(i) != s.get_char(i) {
            proof {
                assert(p@.is_prefix_of(s@) ==> p@[i as int] == s@.subrange(0, p@.len() as int)[i as int]);
            }
            return false;
        }
        i = i + 1;
    }
    proof {
        assert(p@ =~= s@.subrange(0, p@.len() as int));
    }
    true
}

} // verus!
