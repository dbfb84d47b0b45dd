use vstd::prelude::*;

verus! {

/// Whether the regex crate's `\w` class holds `c`: a function of the
/// character alone. Only non-ASCII characters reach this name in
/// specifications; the ASCII members of `\w` are written out below.
pub uninterp spec fn unicode_word_char(c: char) -> bool;

/// Relies on the regex crate's `\w` character class, the class the accepted
/// pattern is written in; Unicode-aware and deterministic in the character.
/// The fixed one-character pattern always compiles.
#[verifier::external_body]
fn unicode_word_char_exec(c: char) -> (r: bool)
    ensures
        r == unicode_word_char(c),
{
    let mut buf = [0u8; 4];
    regex::Regex::new(r"^\w$").unwrap().is_match(c.encode_utf8(&mut buf))
}

/// A word character as the accepted pattern's `\w` understands it: ASCII
/// letters, digits and underscore, plus the non-ASCII part of the Unicode
/// word class (`\w` holds no further ASCII characters).
pub open spec fn is_word_char(c: char) -> bool {
    ('a' <= c && c <= 'z') || ('A' <= c && c <= 'Z') || ('0' <= c && c <= '9') || c == '_' || (c
        > '\u{7f}' && unicode_word_char(c))
}

/// A character accepted in the local part and in the domain body:
/// word characters plus dot and dash.
pub open spec fn is_local_char(c: char) -> bool {
    is_word_char(c) || c == '.' || c == '-'
}

pub open spec fn local_range(s: Seq<char>, lo: int, hi: int) -> bool {
    forall|i: int| lo <= i < hi ==> is_local_char(#[trigger] s[i])
}

pub open spec fn word_range(s: Seq<char>, lo: int, hi: int) -> bool {
    forall|i: int| lo <= i < hi ==> is_word_char(#[trigger] s[i])
}

/// `s` splits as `local@domain.tld` with the `@` at `a` and the final dot at
/// `d`: `local` and `domain` are non-empty runs of word characters, dots and
/// dashes, and `tld` is a non-empty run of word characters.
pub open spec fn email_split(s: Seq<char>, a: int, d: int) -> bool {
    &&& 1 <= a
    &&& a + 1 < d
    &&& d + 1 < s.len()
    &&& s[a] == '@'
    &&& s[d] == '.'
    &&& local_range(s, 0, a)
    &&& local_range(s, a + 1, d)
    &&& word_range(s, d + 1, s.len() as int)
}

/// The accepted email shape: some split of `s` as `local@domain.tld`.
pub open spec fn is_email(s: Seq<char>) -> bool {
    exists|a: int, d: int| email_split(s, a, d)
}

/// In any accepted split, the `@` is the first `@` of the string.
proof fn lemma_at_is_first(s: Seq<char>, a: int, d: int, a0: int)
    requires
        email_split(s, a, d),
        0 <= a0 < s.len(),
        s[a0] == '@',
        forall|i: int| 0 <= i < a0 ==> #[trigger] s[i] != '@',
    ensures
        a == a0,
{
    if a < a0 {
        assert(s[a] != '@');
    }
    if a > a0 {
        assert(is_local_char(s[a0]));
    }
}

/// In any accepted split, the dot before the top-level label is the last dot.
proof fn lemma_dot_is_last(s: Seq<char>, a: int, d: int, d0: int)
    requires
        email_split(s, a, d),
        0 <= d0 < s.len(),
        s[d0] == '.',
        forall|i: int| d0 < i < s.len() ==> #[trigger] s[i] != '.',
    ensures
        d == d0,
{
    if d < d0 {
        assert(is_word_char(s[d0]));
    }
    if d > d0 {
        assert(s[d] != '.');
    }
}

fn is_word_char_exec(c: char) -> (r: bool)
    ensures
        r == is_word_char(c),
{
    if c <= '\u{7f}' {
        ('a' <= c && c <= 'z') || ('A' <= c && c <= 'Z') || ('0' <= c && c <= '9') || c == '_'
    } else {
        unicode_word_char_exec(c)
    }
}

fn is_local_char_exec(c: char) -> (r: bool)
    ensures
        r == is_local_char(c),
{
    is_word_char_exec(c) || c == '.' || c == '-'
}

/// Whether `email` matches the accepted `local@domain.tld` pattern.
/// No store access is involved; user creation checks this first.
pub fn is_valid_email(email: &str) -> (r: bool)
    ensures
        r == is_email(email@),
{
    let s = email;
    let n = s.unicode_len();
    let ghost sq = s@;

    // Scan the local part up to the first '@'.
    let mut i: usize = 0;
    loop
        invariant
            sq == s@,
            sq == email@,
            n == sq.len(),
            0 <= i <= n,
            local_range(sq, 0, i as int),
            forall|j: int| 0 <= j < i ==> #[trigger] sq[j] != '@',
        ensures
            0 <= i < n,
            sq[i as int] == '@',
            local_range(sq, 0, i as int),
            forall|j: int| 0 <= j < i ==> #[trigger] sq[j] != '@',
        decreases n - i,
    {
        if i == n {
            // No '@' anywhere.
            proof {
                if is_email(sq) {
                    let (a1, d1) = choose|a1: int, d1: int| email_split(sq, a1, d1);
                    assert(sq[a1] != '@');
                }
            }
            return false;
        }
        let c = s.get_char(i);
        if c == '@' {
            break;
        }
        if !is_local_char_exec(c) {
            // A character no email part accepts, before any '@'.
            proof {
                if is_email(sq) {
                    let (a1, d1) = choose|a1: int, d1: int| email_split(sq, a1, d1);
                    if a1 <= i {
                        assert(sq[a1] != '@');
                    } else {
                        assert(is_local_char(sq[i as int]));
                    }
                }
            }
            return false;
        }
        i = i + 1;
    }
    let a = i;
    if a == 0 {
        // Empty local part.
        proof {
            if is_email(sq) {
                let (a1, d1) = choose|a1: int, d1: int| email_split(sq, a1, d1);
                lemma_at_is_first(sq, a1, d1, 0);
            }
        }
        return false;
    }

    // Scan the rest; every character must be acceptable in a domain body,
    // and the last dot is remembered.
    let mut j: usize = a + 1;
    let mut last_dot: usize = 0;
    let mut seen_dot = false;
    while j < n
        invariant
            sq == s@,
            sq == email@,
            n == sq.len(),
            0 < a < n,
            sq[a as int] == '@',
            forall|k: int| 0 <= k < a ==> #[trigger] sq[k] != '@',
            local_range(sq, 0, a as int),
            a + 1 <= j <= n,
            local_range(sq, a as int + 1, j as int),
            seen_dot ==> a < last_dot < j && sq[last_dot as int] == '.',
            seen_dot ==> forall|k: int| last_dot < k < j ==> #[trigger] sq[k] != '.',
            !seen_dot ==> forall|k: int| a < k < j ==> #[trigger] sq[k] != '.',
        decreases n - j,
    {
        let c = s.get_char(j);
        if !is_local_char_exec(c) {
            // A second '@', or a character no email part accepts.
            proof {
                if is_email(sq) {
                    let (a1, d1) = choose|a1: int, d1: int| email_split(sq, a1, d1);
                    lemma_at_is_first(sq, a1, d1, a as int);
                    if j < d1 {
                        assert(is_local_char(sq[j as int]));
                    } else if j == d1 {
                        assert(sq[j as int] == '.');
                    } else {
                        assert(is_word_char(sq[j as int]));
                    }
                }
            }
            return false;
        }
        if c == '.' {
            last_dot = j;
            seen_dot = true;
        }
        j = j + 1;
    }

    if !seen_dot {
        // No dot after the '@'.
        proof {
            if is_email(sq) {
                let (a1, d1) = choose|a1: int, d1: int| email_split(sq, a1, d1);
                lemma_at_is_first(sq, a1, d1, a as int);
                assert(sq[d1] != '.');
            }
        }
        return false;
    }
    let d = last_dot;
    if d == a + 1 {
        // Empty domain body.
        proof {
            if is_email(sq) {
                let (a1, d1) = choose|a1: int, d1: int| email_split(sq, a1, d1);
                lemma_at_is_first(sq, a1, d1, a as int);
                lemma_dot_is_last(sq, a1, d1, d as int);
            }
        }
        return false;
    }
    if d + 1 == n {
        // Empty top-level label.
        proof {
            if is_email(sq) {
                let (a1, d1) = choose|a1: int, d1: int| email_split(sq, a1, d1);
                lemma_at_is_first(sq, a1, d1, a as int);
                lemma_dot_is_last(sq, a1, d1, d as int);
            }
        }
        return false;
    }

    // The top-level label allows word characters only.
    let mut k: usize = d + 1;
    while k < n
        invariant
            sq == s@,
            sq == email@,
            n == sq.len(),
            0 < a < n,
            sq[a as int] == '@',
            forall|t: int| 0 <= t < a ==> #[trigger] sq[t] != '@',
            local_range(sq, 0, a as int),
            local_range(sq, a as int + 1, n as int),
            a + 1 < d,
            d + 1 < n,
            sq[d as int] == '.',
            forall|t: int| d < t < n ==> #[trigger] sq[t] != '.',
            d + 1 <= k <= n,
            word_range(sq, d as int + 1, k as int),
        decreases n - k,
    {
        let c = s.get_char(k);
        if !is_word_char_exec(c) {
            proof {
                if is_email(sq) {
                    let (a1, d1) = choose|a1: int, d1: int| email_split(sq, a1, d1);
                    lemma_at_is_first(sq, a1, d1, a as int);
                    lemma_dot_is_last(sq, a1, d1, d as int);
                    assert(is_word_char(sq[k as int]));
                }
            }
            return false;
        }
        k = k + 1;
    }

    proof {
        assert(email_split(sq, a as int, d as int));
    }
    true
}

} // verus!
