//! Pure name transformations used when generating lexer tables, syntax-kind
//! tags and typed node definitions from the grammar: case conversions,
//! pluralization, and the raw-string-literal builder.

use vstd::prelude::*;
use vstd::string::StrSliceExecFns;
use vstd::string::StringExecFns;

verus! {

/// ASCII uppercase image of a character: letters `a..z` map to `A..Z`,
/// everything else is unchanged.
pub open spec fn upper_char(c: char) -> char {
    if 'a' <= c && c <= 'z' {
        ((c as u32) - 32) as char
    } else {
        c
    }
}

/// ASCII lowercase image of a character: letters `A..Z` map to `a..z`,
/// everything else is unchanged.
pub open spec fn lower_char(c: char) -> char {
    if 'A' <= c && c <= 'Z' {
        ((c as u32) + 32) as char
    } else {
        c
    }
}

pub open spec fn is_upper(c: char) -> bool {
    'A' <= c && c <= 'Z'
}

/// Relies on char::to_ascii_uppercase: ASCII letters `'a'..='z'` are mapped to
/// `'A'..='Z'`, all other characters are returned unchanged.
#[verifier::external_body]
fn ascii_upper(c: char) -> (r: char)
    ensures
        r == upper_char(c),
{
    c.to_ascii_uppercase()
}

/// Relies on char::to_ascii_lowercase: ASCII letters `'A'..='Z'` are mapped to
/// `'a'..='z'`, all other characters are returned unchanged.
#[verifier::external_body]
fn ascii_lower(c: char) -> (r: char)
    ensures
        r == lower_char(c),
{
    c.to_ascii_lowercase()
}

/// Relies on String::push: appends the given character to the end of the
/// string.
#[verifier::external_body]
pub(crate) fn push_char(buf: &mut String, c: char)
    ensures
        final(buf)@ == old(buf)@.push(c),
{
    buf.push(c);
}

/// Upper-snake-case image of a name: a separator is inserted before every
/// uppercase letter that follows a non-separator character, and every
/// character is uppercased.
pub open spec fn upper_snake(s: Seq<char>) -> Seq<char>
    decreases s.len(),
{
    if s.len() == 0 {
        Seq::empty()
    } else {
        let sep: Seq<char> = if is_upper(s.last()) && s.len() > 1 && s[s.len() - 2] != '_' {
            seq!['_']
        } else {
            Seq::empty()
        };
        upper_snake(s.drop_last()) + sep + seq![upper_char(s.last())]
    }
}

/// Lower-snake-case image of a name: a separator is inserted before every
/// uppercase letter that follows a non-separator character, and every
/// character is lowercased.
pub open spec fn lower_snake(s: Seq<char>) -> Seq<char>
    decreases s.len(),
{
    if s.len() == 0 {
        Seq::empty()
    } else {
        let sep: Seq<char> = if is_upper(s.last()) && s.len() > 1 && s[s.len() - 2] != '_' {
            seq!['_']
        } else {
            Seq::empty()
        };
        lower_snake(s.drop_last()) + sep + seq![lower_char(s.last())]
    }
}

/// Turns a camel-case or pascal-case name into UPPER_SNAKE_CASE.
pub fn to_upper_snake_case(s: &str) -> (r: String)
    ensures
        r@ == upper_snake(s@),
{
    let n: usize = s.unicode_len();
    let mut buf = String::new();
    let mut i: usize = 0;
    while i < n
        invariant
            n == s@.len(),
            0 <= i <= n,
            buf@ == upper_snake(s@.take(i as int)),
        decreases n - i,
    {
        let c = s.get_char(i);
        if 'A' <= c && c <= 'Z' {
            if i > 0 && s.get_char(i - 1) != '_' {
                push_char(&mut buf, '_');
            }
        }
        let u = ascii_upper(c);
        push_char(&mut buf, u);
        proof {
            let t = s@.take(i + 1 as int);
            assert(t.drop_last() =~= s@.take(i as int));
            assert(t.last() == s@[i as int]);
            if i > 0 {
                assert(t[t.len() - 2] == s@[i - 1]);
            }
            assert(buf@ =~= upper_snake(t));
        }
        i = i + 1;
    }
    proof {
        assert(s@.take(n as int) =~= s@);
    }
    buf
}

/// Turns a camel-case or pascal-case name into lower_snake_case.
pub fn to_lower_snake_case(s: &str) -> (r: String)
    ensures
        r@ == lower_snake(s@),
{
    let n: usize = s.unicode_len();
    let mut buf = String::new();
    let mut i: usize = 0;
    while i < n
        invariant
            n == s@.len(),
            0 <= i <= n,
            buf@ == lower_snake(s@.take(i as int)),
        decreases n - i,
    {
        let c = s.get_char(i);
        if 'A' <= c && c <= 'Z' {
            if i > 0 && s.get_char(i - 1) != '_' {
                push_char(&mut buf, '_');
            }
        }
        let l = ascii_lower(c);
        push_char(&mut buf, l);
        proof {
            let t = s@.take(i + 1 as int);
            assert(t.drop_last() =~= s@.take(i as int));
            assert(t.last() == s@[i as int]);
            if i > 0 {
                assert(t[t.len() - 2] == s@[i - 1]);
            }
            assert(buf@ =~= lower_snake(t));
        }
        i = i + 1;
    }
    proof {
        assert(s@.take(n as int) =~= s@);
    }
    buf
}

/// Pascal-case image of a snake-case name, starting from position `i` with
/// `boundary` saying whether the previous character was a separator (or the
/// start of the name): separators are dropped, the letter after each boundary
/// is uppercased and every other letter is lowercased.
pub open spec fn pascal_from(s: Seq<char>, i: int, boundary: bool) -> Seq<char>
    decreases s.len() - i,
{
    if i < 0 || i >= s.len() {
        Seq::empty()
    } else if s[i] == '_' {
        pascal_from(s, i + 1, true)
    } else if boundary {
        seq![upper_char(s[i])] + pascal_from(s, i + 1, false)
    } else {
        seq![lower_char(s[i])] + pascal_from(s, i + 1, false)
    }
}

/// Pascal-case image of a whole snake-case name.
pub open spec fn pascal(s: Seq<char>) -> Seq<char> {
    pascal_from(s, 0, true)
}

/// Turns a snake_case name into PascalCase.
pub fn to_pascal_case(s: &str) -> (r: String)
    ensures
        r@ == pascal(s@),
{
    let n: usize = s.unicode_len();
    let mut buf = String::new();
    let mut boundary = true;
    let mut i: usize = 0;
    while i < n
        invariant
            n == s@.len(),
            0 <= i <= n,
            pascal(s@) =~= buf@ + pascal_from(s@, i as int, boundary),
        decreases n - i,
    {
        let c = s.get_char(i);
        if c == '_' {
            boundary = true;
        } else if boundary {
            let u = ascii_upper(c);
            push_char(&mut buf, u);
            boundary = false;
            proof {
                assert(buf@ + pascal_from(s@, i + 1, false) =~= buf@.drop_last() + (
                seq![upper_char(s@[i as int])] + pascal_from(s@, i + 1, false)));
            }
        } else {
            let l = ascii_lower(c);
            push_char(&mut buf, l);
            proof {
                assert(buf@ + pascal_from(s@, i + 1, false) =~= buf@.drop_last() + (
                seq![lower_char(s@[i as int])] + pascal_from(s@, i + 1, false)));
            }
        }
        i = i + 1;
    }
    buf
}

/// Appends the plural marker to a name.
pub fn pluralize(s: &str) -> (r: String)
    ensures
        r@ == s@.push('s'),
{
    let mut buf = s.to_owned();
    push_char(&mut buf, 's');
    buf
}

/// Length of the run of `#` characters starting at `i`.
pub open spec fn hash_run(s: Seq<char>, i: int) -> nat
    decreases s.len() - i,
{
    if 0 <= i < s.len() && s[i] == '#' {
        (1 + hash_run(s, i + 1)) as nat
    } else {
        0
    }
}

/// The longest run of `#` characters that immediately follows a `"` at or
/// after position `i`.
pub open spec fn max_hash_depth_from(s: Seq<char>, i: int) -> nat
    decreases s.len() - i,
{
    if i < 0 || i >= s.len() {
        0
    } else {
        let rest = max_hash_depth_from(s, i + 1);
        if s[i] == '"' {
            let run = hash_run(s, i + 1);
            if run > rest {
                run
            } else {
                rest
            }
        } else {
            rest
        }
    }
}

/// The longest run of `#` characters immediately following any `"` in `s`:
/// one more than this is enough `#`s to delimit a raw literal holding `s`.
pub open spec fn max_hash_depth(s: Seq<char>) -> nat {
    max_hash_depth_from(s, 0)
}

/// `n` copies of `c`.
pub open spec fn repeat_char(c: char, n: int) -> Seq<char>
    decreases n,
{
    if n <= 0 {
        Seq::empty()
    } else {
        repeat_char(c, n - 1).push(c)
    }
}

/// The raw-string-literal source text that wraps `s`: `r`, one more `#` than
/// the deepest `"`-adjacent hash run of `s`, a quoted copy of `s`, and the
/// matching closing hashes.
pub open spec fn raw_literal_of(s: Seq<char>) -> Seq<char> {
    let d: int = max_hash_depth(s) as int + 1;
    seq!['r'] + repeat_char('#', d) + seq!['"'] + s + seq!['"'] + repeat_char('#', d)
}

/// Builds the raw-string-literal source text wrapping `s`, choosing the
/// delimiter depth so that no `"#...` run inside `s` can close it early.
/// Turning the text into a compiler token is the caller's concern.
pub fn raw_str_literal(s: &str) -> (r: String)
    ensures
        r@ == raw_literal_of(s@),
{
    let n = s.unicode_len();
    let mut best: usize = 0;
    let mut i: usize = 0;
    while i < n
        invariant
            0 <= i <= n,
            n == s@.len(),
            best + 1 <= n || best == 0,
            max_hash_depth(s@) as int == if best as int > max_hash_depth_from(s@, i as int) as int {
                best as int
            } else {
                max_hash_depth_from(s@, i as int) as int
            },
        decreases n - i,
    {
        let c = s.get_char(i);
        if c == '"' {
            let mut j = i + 1;
            while j < n && s.get_char(j) == '#'
                invariant
                    i + 1 <= j <= n,
                    n == s@.len(),
                    hash_run(s@, i + 1) == j - (i + 1) + hash_run(s@, j as int),
                decreases n - j,
            {
                j = j + 1;
            }
            let run = j - i - 1;
            proof {
                assert(hash_run(s@, j as int) == 0);
                assert(run as int == hash_run(s@, i + 1));
            }
            if run > best {
                best = run;
            }
        }
        i = i + 1;
    }
    proof {
        assert(max_hash_depth_from(s@, n as int) == 0);
        assert(best as int == max_hash_depth(s@));
    }
    let depth = best + 1;
    let mut buf = String::new();
    push_char(&mut buf, 'r');
    let mut k: usize = 0;
    while k < depth
        invariant
            0 <= k <= depth,
            buf@ == seq!['r'] + repeat_char('#', k as int),
        decreases depth - k,
    {
        push_char(&mut buf, '#');
        k = k + 1;
    }
    push_char(&mut buf, '"');
    let body = s.to_owned();
    buf.append(body.as_str());
    push_char(&mut buf, '"');
    let mut k2: usize = 0;
    while k2 < depth
        invariant
            0 <= k2 <= depth,
            buf@ == seq!['r'] + repeat_char('#', depth as int) + seq!['"'] + s@ + seq!['"']
                + repeat_char('#', k2 as int),
        decreases depth - k2,
    {
        push_char(&mut buf, '#');
        k2 = k2 + 1;
    }
    proof {
        assert(buf@ =~= raw_literal_of(s@));
    }
    buf
}

} // verus!
