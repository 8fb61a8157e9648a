//! Verified string helpers. All reasoning happens over `Seq<char>` views;
//! the exec side works character by character.

use vstd::prelude::*;
use vstd::string::StrSliceExecFns;
use vstd::string::StringExecFns;

verus! {

// ---------------------------------------------------------------------------
// Conversions and equality.
// ---------------------------------------------------------------------------

/// The characters of a string, as a vector.
pub fn to_chars(s: &str) -> (r: Vec<char>)
    ensures
        r@ == s@,
{
    let n = s.unicode_len();
    let mut r: Vec<char> = Vec::new();
    let mut i: usize = 0;
    while i < n
        invariant
            n == s@.len(),
            i <= n,
            r@ == s@.take(i as int),
        decreases n - i,
    {
        r.push(s.get_char(i));
        proof {
            assert(r@ =~= s@.take(i + 1));
        }
        i = i + 1;
    }
    proof {
        assert(r@ =~= s@);
    }
    r
}

/// Builds a string from its characters.
/// Relies on `String: FromIterator<char>`: collecting chars yields the
/// string with exactly those characters.
#[verifier::external_body]
pub fn from_chars(v: &Vec<char>) -> (r: String)
    ensures
        r@ == v@,
{
    v.iter().collect()
}

pub fn str_eq(a: &str, b: &str) -> (r: bool)
    ensures
        r == (a@ == b@),
{
    let na = a.unicode_len();
    let nb = b.unicode_len();
    if na != nb {
        proof {
            assert(a@ != b@);
        }
        return false;
    }
    let mut i: usize = 0;
    while i < na
        invariant
            na == a@.len(),
            na == b@.len(),
            i <= na,
            forall|j: int| 0 <= j < i as int ==> a@[j] == b@[j],
        decreases na - i,
    {
        if a.get_char(i) != b.get_char(i) {
            proof {
                assert(a@ != b@);
            }
            return false;
        }
        i = i + 1;
    }
    proof {
        assert(a@ =~= b@);
    }
    true
}

pub fn str_concat(a: &str, b: &str) -> (r: String)
    ensures
        r@ == a@ + b@,
{
    let mut r = String::from_str(a);
    r.append(b);
    r
}

// ---------------------------------------------------------------------------
// Prefixes.
// ---------------------------------------------------------------------------

pub open spec fn has_prefix(s: Seq<char>, p: Seq<char>) -> bool {
    p.len() <= s.len() && s.take(p.len() as int) == p
}

pub fn starts_with(s: &str, p: &str) -> (r: bool)
    ensures
        r == has_prefix(s@, p@),
{
    let np = p.unicode_len();
    let ns = s.unicode_len();
    if np > ns {
        return false;
    }
    let mut i: usize = 0;
    while i < np
        invariant
            np == p@.len(),
            ns == s@.len(),
            np <= ns,
            i <= np,
            forall|j: int| 0 <= j < i as int ==> s@[j] == p@[j],
        decreases np - i,
    {
        if s.get_char(i) != p.get_char(i) {
            proof {
                assert(s@.take(np as int)[i as int] != p@[i as int]);
            }
            return false;
        }
        i = i + 1;
    }
    proof {
        assert(s@.take(np as int) =~= p@);
    }
    true
}

/// The string without its first `n` characters.
pub fn skip_chars(s: &str, n: usize) -> (r: String)
    requires
        n <= s@.len(),
    ensures
        r@ == s@.skip(n as int),
{
    let ns = s.unicode_len();
    let sub = s.substring_char(n, ns);
    proof {
        assert(sub@ =~= s@.skip(n as int));
    }
    String::from_str(sub)
}

// ---------------------------------------------------------------------------
// Character search and splitting.
// ---------------------------------------------------------------------------

/// Index of the first occurrence of `c`, or -1.
pub open spec fn char_index(s: Seq<char>, c: char) -> int
    decreases s.len(),
{
    if s.len() == 0 {
        -1
    } else if s[0] == c {
        0
    } else {
        let r = char_index(s.drop_first(), c);
        if r == -1 {
            -1
        } else {
            1 + r
        }
    }
}

pub proof fn lemma_char_index(s: Seq<char>, c: char)
    ensures
        -1 <= char_index(s, c) < s.len(),
        char_index(s, c) >= 0 ==> s[char_index(s, c)] == c,
        forall|j: int| 0 <= j < char_index(s, c) ==> s[j] != c,
        char_index(s, c) == -1 ==> forall|j: int| 0 <= j < s.len() ==> s[j] != c,
    decreases s.len(),
{
    if s.len() > 0 && s[0] != c {
        lemma_char_index(s.drop_first(), c);
        assert(forall|j: int| 1 <= j < s.len() ==> s[j] == s.drop_first()[j - 1]);
    }
}

pub proof fn lemma_char_index_of(s: Seq<char>, c: char, i: int)
    requires
        0 <= i < s.len(),
        s[i] == c,
        forall|j: int| 0 <= j < i ==> s[j] != c,
    ensures
        char_index(s, c) == i,
{
    lemma_char_index(s, c);
}

pub open spec fn contains_char(s: Seq<char>, c: char) -> bool {
    char_index(s, c) >= 0
}

pub fn find_char(s: &str, c: char) -> (r: Option<usize>)
    ensures
        match r {
            Some(i) => i < s@.len() && char_index(s@, c) == i as int,
            None => char_index(s@, c) == -1,
        },
{
    let n = s.unicode_len();
    let mut i: usize = 0;
    while i < n
        invariant
            n == s@.len(),
            i <= n,
            forall|j: int| 0 <= j < i as int ==> s@[j] != c,
        decreases n - i,
    {
        if s.get_char(i) == c {
            proof {
                lemma_char_index_of(s@, c, i as int);
            }
            return Some(i);
        }
        i = i + 1;
    }
    proof {
        lemma_char_index(s@, c);
    }
    None
}

/// Split at every occurrence of `c`; n separators yield n+1 pieces.
pub open spec fn split_on(s: Seq<char>, c: char) -> Seq<Seq<char>>
    decreases s.len(),
{
    let i = char_index(s, c);
    if !(0 <= i < s.len()) {
        seq![s]
    } else {
        seq![s.take(i)] + split_on(s.skip(i + 1), c)
    }
}

pub proof fn lemma_split_on_len(s: Seq<char>, c: char)
    ensures
        split_on(s, c).len() >= 1,
    decreases s.len(),
{
    let i = char_index(s, c);
    if i != -1 {
        lemma_char_index(s, c);
        lemma_split_on_len(s.skip(i + 1), c);
    }
}

pub fn split_char(s: &str, c: char) -> (r: Vec<String>)
    ensures
        r@.map_values(|p: String| p@) == split_on(s@, c),
{
    let chars = to_chars(s);
    let n = chars.len();
    let mut pieces: Vec<String> = Vec::new();
    let mut start: usize = 0;
    let mut i: usize = 0;
    let mut piece: Vec<char> = Vec::new();
    proof {
        assert(s@.skip(0) =~= s@);
        assert(pieces@.map_values(|p: String| p@) + split_on(s@, c) =~= split_on(s@, c));
        assert(piece@ =~= s@.subrange(0, 0));
    }
    while i < n
        invariant
            n == s@.len(),
            chars@ == s@,
            start <= i <= n,
            piece@ == s@.subrange(start as int, i as int),
            forall|j: int| start as int <= j < i as int ==> s@[j] != c,
            split_on(s@, c) == pieces@.map_values(|p: String| p@) + split_on(
                s@.skip(start as int),
                c,
            ),
        decreases n - i,
    {
        let ch = chars[i];
        if ch == c {
            let ghost rest = s@.skip(start as int);
            proof {
                lemma_char_index_of(rest, c, i - start);
                assert(rest.take(i - start) =~= piece@);
                assert(rest.skip(i - start + 1) =~= s@.skip(i + 1));
            }
            pieces.push(from_chars(&piece));
            piece = Vec::new();
            proof {
                assert(pieces@.map_values(|p: String| p@) + split_on(s@.skip(i + 1), c)
                    =~= pieces@.drop_last().map_values(|p: String| p@) + (seq![rest.take(i - start)]
                    + split_on(rest.skip(i - start + 1), c)));
            }
            start = i + 1;
            i = i + 1;
            proof {
                assert(piece@ =~= s@.subrange(start as int, i as int));
            }
        } else {
            piece.push(ch);
            i = i + 1;
            proof {
                assert(piece@ =~= s@.subrange(start as int, i as int));
            }
        }
    }
    let ghost rest = s@.skip(start as int);
    proof {
        lemma_char_index(rest, c);
        if char_index(rest, c) >= 0 {
            assert(s@[start + char_index(rest, c)] == c);
            assert(false);
        }
        assert(rest =~= piece@);
    }
    pieces.push(from_chars(&piece));
    proof {
        assert(pieces@.map_values(|p: String| p@) =~= pieces@.drop_last().map_values(
            |p: String| p@,
        ) + seq![rest]);
    }
    pieces
}

// ---------------------------------------------------------------------------
// Substring search, splitting and replacement.
// ---------------------------------------------------------------------------

/// `sep` occurs in `s` at position `i`.
pub open spec fn sub_at(s: Seq<char>, sep: Seq<char>, i: int) -> bool {
    0 <= i && i + sep.len() <= s.len() && s.subrange(i, i + sep.len() as int) == sep
}

/// Index of the first occurrence of `sep` in `s`, or -1.
pub open spec fn find_sub(s: Seq<char>, sep: Seq<char>) -> int
    decreases s.len(),
{
    if s.len() < sep.len() {
        -1
    } else if s.take(sep.len() as int) == sep {
        0
    } else if s.len() == 0 {
        -1
    } else {
        let r = find_sub(s.drop_first(), sep);
        if r == -1 {
            -1
        } else {
            1 + r
        }
    }
}

pub proof fn lemma_find_sub(s: Seq<char>, sep: Seq<char>)
    ensures
        -1 <= find_sub(s, sep),
        find_sub(s, sep) >= 0 ==> sub_at(s, sep, find_sub(s, sep)),
        forall|j: int| 0 <= j < find_sub(s, sep) ==> !sub_at(s, sep, j),
        find_sub(s, sep) == -1 ==> forall|j: int| !sub_at(s, sep, j),
    decreases s.len(),
{
    if s.len() < sep.len() {
        assert(forall|j: int| !sub_at(s, sep, j)) by {
            assert forall|j: int| !sub_at(s, sep, j) by {
                if 0 <= j {
                    assert(j + sep.len() > s.len());
                }
            }
        }
    } else if s.take(sep.len() as int) == sep {
        assert(s.subrange(0, sep.len() as int) =~= s.take(sep.len() as int));
    } else {
        assert(s.subrange(0, sep.len() as int) =~= s.take(sep.len() as int));
        assert(!sub_at(s, sep, 0));
        if s.len() > 0 {
            lemma_find_sub(s.drop_first(), sep);
            assert forall|j: int| 1 <= j implies (sub_at(s, sep, j) <==> sub_at(
                s.drop_first(),
                sep,
                j - 1,
            )) by {
                if j + sep.len() <= s.len() {
                    assert(s.subrange(j, j + sep.len() as int) =~= s.drop_first().subrange(
                        j - 1,
                        j - 1 + sep.len() as int,
                    ));
                }
            }
        }
    }
}

pub proof fn lemma_find_sub_of(s: Seq<char>, sep: Seq<char>, i: int)
    requires
        sub_at(s, sep, i),
        forall|j: int| 0 <= j < i ==> !sub_at(s, sep, j),
    ensures
        find_sub(s, sep) == i,
{
    lemma_find_sub(s, sep);
}

/// First occurrence of `sep` in the characters `s`.
#[verifier::loop_isolation(false)]
pub fn find_sub_chars(s: &Vec<char>, sep: &Vec<char>) -> (r: Option<usize>)
    ensures
        match r {
            Some(i) => find_sub(s@, sep@) == i as int,
            None => find_sub(s@, sep@) == -1,
        },
{
    if sep.len() > s.len() {
        proof {
            lemma_find_sub(s@, sep@);
            if find_sub(s@, sep@) >= 0 {
                assert(sub_at(s@, sep@, find_sub(s@, sep@)));
            }
        }
        return None;
    }
    if sep.len() == 0 {
        proof {
            assert(s@.take(0) =~= sep@);
        }
        return Some(0);
    }
    let last = s.len() - sep.len();
    let mut i: usize = 0;
    while i <= last
        invariant
            i <= last + 1,
            forall|j: int| 0 <= j < i as int ==> !sub_at(s@, sep@, j),
        decreases last + 1 - i,
    {
        let mut j: usize = 0;
        let mut ok = true;
        while j < sep.len()
            invariant
                i <= last,
                j <= sep.len(),
                ok ==> forall|q: int| 0 <= q < j as int ==> s@[i + q] == sep@[q],
                !ok ==> !sub_at(s@, sep@, i as int),
            decreases sep.len() - j,
        {
            if s[i + j] != sep[j] {
                proof {
                    if sub_at(s@, sep@, i as int) {
                        assert(s@.subrange(i as int, i + sep@.len() as int)[j as int] == sep@[j as int]);
                    }
                }
                ok = false;
                j = sep.len();
            } else {
                j = j + 1;
            }
        }
        if ok {
            proof {
                assert(s@.subrange(i as int, i + sep@.len() as int) =~= sep@);
                lemma_find_sub_of(s@, sep@, i as int);
            }
            return Some(i);
        }
        i = i + 1;
    }
    proof {
        lemma_find_sub(s@, sep@);
        if find_sub(s@, sep@) >= 0 {
            assert(sub_at(s@, sep@, find_sub(s@, sep@)));
        }
    }
    None
}

/// Split at every occurrence of `sep`, left to right, no overlap.
pub open spec fn split_sub(s: Seq<char>, sep: Seq<char>) -> Seq<Seq<char>>
    decreases s.len(),
{
    let i = find_sub(s, sep);
    if sep.len() == 0 || !(0 <= i && i + sep.len() <= s.len()) {
        seq![s]
    } else {
        seq![s.take(i)] + split_sub(s.skip(i + sep.len() as int), sep)
    }
}

/// Replace every occurrence of `sep` by `rep`, left to right, no overlap.
pub open spec fn replace_sub(s: Seq<char>, sep: Seq<char>, rep: Seq<char>) -> Seq<char>
    decreases s.len(),
{
    let i = find_sub(s, sep);
    if sep.len() == 0 || !(0 <= i && i + sep.len() <= s.len()) {
        s
    } else {
        s.take(i) + rep + replace_sub(s.skip(i + sep.len() as int), sep, rep)
    }
}

pub fn split_substr(s: &str, sep: &str) -> (r: Vec<String>)
    requires
        sep@.len() >= 1,
    ensures
        r@.map_values(|p: String| p@) == split_sub(s@, sep@),
    decreases s@.len(),
{
    let chars = to_chars(s);
    let sepc = to_chars(sep);
    match find_sub_chars(&chars, &sepc) {
        None => {
            proof {
                lemma_find_sub(s@, sep@);
            }
            let mut r: Vec<String> = Vec::new();
            r.push(String::from_str(s));
            proof {
                assert(r@.map_values(|p: String| p@) =~= split_sub(s@, sep@));
            }
            r
        },
        Some(i) => {
            proof {
                lemma_find_sub(s@, sep@);
            }
            let n = s.unicode_len();
            let head = s.substring_char(0, i);
            let tail = s.substring_char(i + sepc.len(), n);
            let mut r = split_substr(tail, sep);
            proof {
                assert(head@ =~= s@.take(i as int));
                assert(tail@ =~= s@.skip(i + sep@.len() as int));
            }
            r.insert(0, String::from_str(head));
            proof {
                assert(r@.map_values(|p: String| p@) =~= seq![s@.take(i as int)]
                    + r@.drop_first().map_values(|p: String| p@));
            }
            r
        },
    }
}

pub fn replace_substr(s: &str, sep: &str, rep: &str) -> (r: String)
    requires
        sep@.len() >= 1,
    ensures
        r@ == replace_sub(s@, sep@, rep@),
    decreases s@.len(),
{
    let chars = to_chars(s);
    let sepc = to_chars(sep);
    match find_sub_chars(&chars, &sepc) {
        None => {
            proof {
                lemma_find_sub(s@, sep@);
            }
            String::from_str(s)
        },
        Some(i) => {
            proof {
                lemma_find_sub(s@, sep@);
            }
            let n = s.unicode_len();
            let head = s.substring_char(0, i);
            let tail = s.substring_char(i + sepc.len(), n);
            let rest = replace_substr(tail, sep, rep);
            proof {
                assert(head@ =~= s@.take(i as int));
                assert(tail@ =~= s@.skip(i + sep@.len() as int));
            }
            let mut r = String::from_str(head);
            r.append(rep);
            r.append(rest.as_str());
            r
        },
    }
}

// ---------------------------------------------------------------------------
// Whitespace and trimming.
// ---------------------------------------------------------------------------

/// The characters with the Unicode `White_Space` property, as the standard
/// library's `char::is_whitespace` recognizes them.
pub open spec fn is_space(c: char) -> bool {
    c == ' ' || c == '\t' || c == '\n' || c == '\r' || c == '\u{000B}' || c == '\u{000C}'
        || c == '\u{0085}' || c == '\u{00A0}' || c == '\u{1680}' || c == '\u{2000}'
        || c == '\u{2001}' || c == '\u{2002}' || c == '\u{2003}' || c == '\u{2004}'
        || c == '\u{2005}' || c == '\u{2006}' || c == '\u{2007}' || c == '\u{2008}'
        || c == '\u{2009}' || c == '\u{200A}' || c == '\u{2028}' || c == '\u{2029}'
        || c == '\u{202F}' || c == '\u{205F}' || c == '\u{3000}'
}

pub fn is_space_char(c: char) -> (r: bool)
    ensures
        r == is_space(c),
{
    c == ' ' || c == '\t' || c == '\n' || c == '\r' || c == '\u{000B}' || c == '\u{000C}'
        || c == '\u{0085}' || c == '\u{00A0}' || c == '\u{1680}' || c == '\u{2000}'
        || c == '\u{2001}' || c == '\u{2002}' || c == '\u{2003}' || c == '\u{2004}'
        || c == '\u{2005}' || c == '\u{2006}' || c == '\u{2007}' || c == '\u{2008}'
        || c == '\u{2009}' || c == '\u{200A}' || c == '\u{2028}' || c == '\u{2029}'
        || c == '\u{202F}' || c == '\u{205F}' || c == '\u{3000}'
}

/// How many leading whitespace characters `s` has.
pub open spec fn leading_spaces(s: Seq<char>) -> int
    decreases s.len(),
{
    if s.len() == 0 || !is_space(s[0]) {
        0
    } else {
        1 + leading_spaces(s.drop_first())
    }
}

/// How many trailing whitespace characters `s` has.
pub open spec fn trailing_spaces(s: Seq<char>) -> int
    decreases s.len(),
{
    if s.len() == 0 || !is_space(s.last()) {
        0
    } else {
        1 + trailing_spaces(s.drop_last())
    }
}

/// `s` without leading and trailing whitespace.
pub open spec fn trim_of(s: Seq<char>) -> Seq<char> {
    let a = leading_spaces(s);
    if a == s.len() {
        Seq::empty()
    } else {
        s.subrange(a, s.len() - trailing_spaces(s))
    }
}

pub proof fn lemma_leading_spaces(s: Seq<char>)
    ensures
        0 <= leading_spaces(s) <= s.len(),
        forall|j: int| 0 <= j < leading_spaces(s) ==> is_space(s[j]),
        leading_spaces(s) < s.len() ==> !is_space(s[leading_spaces(s)]),
    decreases s.len(),
{
    if s.len() > 0 && is_space(s[0]) {
        lemma_leading_spaces(s.drop_first());
        assert(forall|j: int| 1 <= j < s.len() ==> s[j] == s.drop_first()[j - 1]);
    }
}

pub proof fn lemma_trailing_spaces(s: Seq<char>)
    ensures
        0 <= trailing_spaces(s) <= s.len(),
        forall|j: int| s.len() - trailing_spaces(s) <= j < s.len() ==> is_space(s[j]),
        trailing_spaces(s) < s.len() ==> !is_space(s[s.len() - trailing_spaces(s) - 1]),
    decreases s.len(),
{
    if s.len() > 0 && is_space(s.last()) {
        lemma_trailing_spaces(s.drop_last());
        assert(forall|j: int| 0 <= j < s.len() - 1 ==> s[j] == s.drop_last()[j]);
    }
}

/// When anything is left after the leading spaces, the two space regions do
/// not overlap.
pub proof fn lemma_trim_bounds(s: Seq<char>)
    ensures
        leading_spaces(s) < s.len() ==> leading_spaces(s) + trailing_spaces(s) < s.len(),
{
    lemma_leading_spaces(s);
    lemma_trailing_spaces(s);
    let a = leading_spaces(s);
    if a < s.len() {
        if a + trailing_spaces(s) >= s.len() {
            assert(s.len() - trailing_spaces(s) <= a < s.len());
            assert(is_space(s[a]));
            assert(false);
        }
    }
}

/// Trimming is idempotent.
pub proof fn lemma_trim_idempotent(s: Seq<char>)
    ensures
        trim_of(trim_of(s)) == trim_of(s),
{
    lemma_leading_spaces(s);
    lemma_trailing_spaces(s);
    lemma_trim_bounds(s);
    let t = trim_of(s);
    if t.len() > 0 {
        assert(!is_space(t[0]));
        assert(!is_space(t.last()));
        assert(leading_spaces(t) == 0);
        assert(trailing_spaces(t) == 0);
        assert(trim_of(t) =~= t);
    } else {
        assert(leading_spaces(t) == 0);
        assert(trim_of(t) =~= t);
    }
}

#[verifier::loop_isolation(false)]
pub fn trim_str(s: &str) -> (r: String)
    ensures
        r@ == trim_of(s@),
{
    let n = s.unicode_len();
    let mut a: usize = 0;
    while a < n && is_space_char(s.get_char(a))
        invariant
            a <= n,
            forall|j: int| 0 <= j < a as int ==> is_space(s@[j]),
        decreases n - a,
    {
        a = a + 1;
    }
    proof {
        lemma_leading_spaces(s@);
        if (a as int) < leading_spaces(s@) {
            assert(is_space(s@[a as int]));
        }
        assert(a as int == leading_spaces(s@));
    }
    if a == n {
        proof {
            assert(trim_of(s@) =~= Seq::<char>::empty());
        }
        return String::new();
    }
    let mut b: usize = n;
    while b > a && is_space_char(s.get_char(b - 1))
        invariant
            a <= b <= n,
            forall|j: int| b as int <= j < n as int ==> is_space(s@[j]),
        decreases b,
    {
        b = b - 1;
    }
    proof {
        lemma_trailing_spaces(s@);
        lemma_trim_bounds(s@);
        if (b as int) > s@.len() - trailing_spaces(s@) {
            assert(!is_space(s@[b - 1]));
            assert(s@.len() - trailing_spaces(s@) <= b - 1 < s@.len());
            assert(false);
        }
        if (b as int) < s@.len() - trailing_spaces(s@) {
            assert(is_space(s@[b as int]));
            if (b as int) == a as int {
                assert(!is_space(s@[leading_spaces(s@)]));
            } else {
                assert(trailing_spaces(s@) < s@.len());
                assert(s@.len() - trailing_spaces(s@) - 1 >= b as int);
                assert(!is_space(s@[s@.len() - trailing_spaces(s@) - 1]));
                assert(is_space(s@[s@.len() - trailing_spaces(s@) - 1]));
            }
            assert(false);
        }
    }
    let sub = s.substring_char(a, b);
    proof {
        assert(sub@ =~= trim_of(s@));
    }
    String::from_str(sub)
}

/// The first piece of a split.
pub proof fn lemma_split_on_first(s: Seq<char>, c: char)
    ensures
        split_on(s, c).len() >= 1,
        split_on(s, c)[0] == (if char_index(s, c) == -1 {
            s
        } else {
            s.take(char_index(s, c))
        }),
{
    lemma_char_index(s, c);
    lemma_split_on_len(s, c);
    if char_index(s, c) >= 0 {
        let i = char_index(s, c);
        assert((seq![s.take(i)] + split_on(s.skip(i + 1), c))[0] == s.take(i));
    }
}

/// Whether the first character is `c`.
pub fn first_char_is(s: &str, c: char) -> (r: bool)
    ensures
        r == (s@.len() > 0 && s@[0] == c),
{
    if s.unicode_len() == 0 {
        false
    } else {
        s.get_char(0) == c
    }
}

/// No occurrence in the whole means none in any subrange.
pub proof fn lemma_no_sub_in_subrange(s: Seq<char>, sep: Seq<char>, a: int, b: int)
    requires
        find_sub(s, sep) == -1,
        0 <= a <= b <= s.len(),
    ensures
        find_sub(s.subrange(a, b), sep) == -1,
{
    lemma_find_sub(s, sep);
    let sub = s.subrange(a, b);
    lemma_find_sub(sub, sep);
    if find_sub(sub, sep) >= 0 {
        let j = find_sub(sub, sep);
        assert(sub_at(sub, sep, j));
        assert(s.subrange(a + j, a + j + sep.len() as int) =~= sub.subrange(
            j,
            j + sep.len() as int,
        ));
        assert(sub_at(s, sep, a + j));
        assert(false);
    }
}

/// No piece of a split holds the separator.
pub proof fn lemma_split_sub_pieces(s: Seq<char>, sep: Seq<char>)
    requires
        sep.len() >= 1,
    ensures
        forall|i: int|
            0 <= i < split_sub(s, sep).len() ==> find_sub(
                #[trigger] split_sub(s, sep)[i],
                sep,
            ) == -1,
    decreases s.len(),
{
    lemma_find_sub(s, sep);
    let f = find_sub(s, sep);
    if !(0 <= f && f + sep.len() <= s.len()) {
        assert(f == -1);
        assert(split_sub(s, sep) == seq![s]);
    } else {
        let head = s.take(f);
        lemma_find_sub(head, sep);
        if find_sub(head, sep) >= 0 {
            let j = find_sub(head, sep);
            assert(sub_at(head, sep, j));
            assert(s.subrange(j, j + sep.len() as int) =~= head.subrange(
                j,
                j + sep.len() as int,
            ));
            assert(sub_at(s, sep, j));
            assert(false);
        }
        lemma_split_sub_pieces(s.skip(f + sep.len() as int), sep);
        assert(forall|i: int|
            1 <= i < split_sub(s, sep).len() ==> #[trigger] split_sub(s, sep)[i] == split_sub(
                s.skip(f + sep.len() as int),
                sep,
            )[i - 1]);
    }
}

/// A string without the separator splits into itself alone.
pub proof fn lemma_split_sub_single(s: Seq<char>, sep: Seq<char>)
    requires
        sep.len() >= 1,
        find_sub(s, sep) == -1,
    ensures
        split_sub(s, sep) == seq![s],
{
}

/// Trimming cannot introduce an occurrence of the separator.
pub proof fn lemma_no_sub_after_trim(s: Seq<char>, sep: Seq<char>)
    requires
        sep.len() >= 1,
        find_sub(s, sep) == -1,
    ensures
        find_sub(trim_of(s), sep) == -1,
{
    lemma_leading_spaces(s);
    lemma_trailing_spaces(s);
    lemma_trim_bounds(s);
    let a = leading_spaces(s);
    if a == s.len() {
        lemma_find_sub(trim_of(s), sep);
        if find_sub(trim_of(s), sep) >= 0 {
            assert(sub_at(trim_of(s), sep, find_sub(trim_of(s), sep)));
        }
    } else {
        lemma_no_sub_in_subrange(s, sep, a, s.len() - trailing_spaces(s));
    }
}

} // verus!
