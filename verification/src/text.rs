//! Character-level text utilities with mathematical specifications.
//!
//! Text is modelled as `Seq<char>`; the executable functions work on
//! `Vec<char>` and convert from and to `&str` / `String` at the edges.
use vstd::prelude::*;

verus! {

broadcast use vstd::string::group_string_axioms;

// ---------------------------------------------------------------------------
// Specifications
// ---------------------------------------------------------------------------

/// Unicode `White_Space` property, as used by `char::is_whitespace`.
pub open spec fn is_ws(c: char) -> bool {
    let u = c as u32;
    (9 <= u && u <= 13) || u == 32 || u == 0x85 || u == 0xA0 || u == 0x1680 || (0x2000 <= u
        && u <= 0x200A) || u == 0x2028 || u == 0x2029 || u == 0x202F || u == 0x205F || u == 0x3000
}

pub open spec fn trim_start(s: Seq<char>) -> Seq<char>
    decreases s.len(),
{
    if s.len() > 0 && is_ws(s[0]) {
        trim_start(s.drop_first())
    } else {
        s
    }
}

pub open spec fn trim_end(s: Seq<char>) -> Seq<char>
    decreases s.len(),
{
    if s.len() > 0 && is_ws(s.last()) {
        trim_end(s.drop_last())
    } else {
        s
    }
}

/// `str::trim`: whitespace removed from both ends.
pub open spec fn trim(s: Seq<char>) -> Seq<char> {
    trim_end(trim_start(s))
}

pub open spec fn is_upper_ascii(c: char) -> bool {
    65 <= (c as u32) && (c as u32) <= 90
}

pub open spec fn is_lower_ascii(c: char) -> bool {
    97 <= (c as u32) && (c as u32) <= 122
}

/// `char::to_ascii_lowercase`.
pub open spec fn lower_char(c: char) -> char {
    if is_upper_ascii(c) {
        ((c as u32) + 32) as char
    } else {
        c
    }
}

/// `char::to_ascii_uppercase`.
pub open spec fn upper_char(c: char) -> char {
    if is_lower_ascii(c) {
        ((c as u32) - 32) as char
    } else {
        c
    }
}

/// `str::to_ascii_lowercase`.
pub open spec fn lower(s: Seq<char>) -> Seq<char> {
    Seq::new(s.len(), |i: int| lower_char(s[i]))
}

/// `str::to_ascii_uppercase`.
pub open spec fn upper(s: Seq<char>) -> Seq<char> {
    Seq::new(s.len(), |i: int| upper_char(s[i]))
}

/// `str::eq_ignore_ascii_case`.
pub open spec fn eq_ic(a: Seq<char>, b: Seq<char>) -> bool {
    lower(a) == lower(b)
}

pub open spec fn starts_with(s: Seq<char>, p: Seq<char>) -> bool {
    p.len() <= s.len() && s.subrange(0, p.len() as int) == p
}

pub open spec fn ends_with(s: Seq<char>, p: Seq<char>) -> bool {
    p.len() <= s.len() && s.subrange(s.len() - p.len(), s.len() as int) == p
}

/// `pat` occurs in `s` at position `i`.
pub open spec fn occurs_at(s: Seq<char>, pat: Seq<char>, i: int) -> bool {
    0 <= i && i + pat.len() <= s.len() && s.subrange(i, i + pat.len()) == pat
}

/// `str::contains` with a string pattern.
pub open spec fn contains(s: Seq<char>, pat: Seq<char>) -> bool {
    exists|i: int| occurs_at(s, pat, i)
}

/// Index of the first occurrence of `c`.
pub open spec fn find_char(s: Seq<char>, c: char) -> Option<int>
    decreases s.len(),
{
    if s.len() == 0 {
        None
    } else if s[0] == c {
        Some(0)
    } else {
        match find_char(s.drop_first(), c) {
            Some(i) => Some(i + 1),
            None => None,
        }
    }
}

/// Index of the last occurrence of `c`.
pub open spec fn rfind_char(s: Seq<char>, c: char) -> Option<int>
    decreases s.len(),
{
    if s.len() == 0 {
        None
    } else if s.last() == c {
        Some(s.len() - 1)
    } else {
        rfind_char(s.drop_last(), c)
    }
}

/// `str::split_once` with a character separator.
pub open spec fn split_once(s: Seq<char>, c: char) -> Option<(Seq<char>, Seq<char>)> {
    match find_char(s, c) {
        Some(i) => Some((s.subrange(0, i), s.subrange(i + 1, s.len() as int))),
        None => None,
    }
}

/// `str::rsplit_once` with a character separator.
pub open spec fn rsplit_once(s: Seq<char>, c: char) -> Option<(Seq<char>, Seq<char>)> {
    match rfind_char(s, c) {
        Some(i) => Some((s.subrange(0, i), s.subrange(i + 1, s.len() as int))),
        None => None,
    }
}

/// Left-to-right scan used by `split_char`: pieces already closed, and the
/// piece still being built.
pub open spec fn split_scan(s: Seq<char>, sep: char) -> (Seq<Seq<char>>, Seq<char>)
    decreases s.len(),
{
    if s.len() == 0 {
        (Seq::empty(), Seq::empty())
    } else {
        let (done, cur) = split_scan(s.drop_last(), sep);
        if s.last() == sep {
            (done.push(cur), Seq::empty())
        } else {
            (done, cur.push(s.last()))
        }
    }
}

/// `str::split` with a character separator (empty pieces kept).
pub open spec fn split_char(s: Seq<char>, sep: char) -> Seq<Seq<char>> {
    let (done, cur) = split_scan(s, sep);
    done.push(cur)
}

/// Left-to-right scan used by `split_ws`.
pub open spec fn words_scan(s: Seq<char>) -> (Seq<Seq<char>>, Seq<char>)
    decreases s.len(),
{
    if s.len() == 0 {
        (Seq::empty(), Seq::empty())
    } else {
        let (done, cur) = words_scan(s.drop_last());
        if is_ws(s.last()) {
            if cur.len() > 0 {
                (done.push(cur), Seq::empty())
            } else {
                (done, cur)
            }
        } else {
            (done, cur.push(s.last()))
        }
    }
}

/// `str::split_whitespace`.
pub open spec fn split_ws(s: Seq<char>) -> Seq<Seq<char>> {
    let (done, cur) = words_scan(s);
    if cur.len() > 0 {
        done.push(cur)
    } else {
        done
    }
}

pub open spec fn strip_cr(s: Seq<char>) -> Seq<char> {
    if s.len() > 0 && s.last() == '\r' {
        s.drop_last()
    } else {
        s
    }
}

pub open spec fn strip_crs(p: Seq<Seq<char>>) -> Seq<Seq<char>> {
    Seq::new(p.len(), |i: int| strip_cr(p[i]))
}

/// `str::lines`: split at `\n`, strip a `\r` before each `\n`, and drop an
/// empty last piece.
pub open spec fn lines(s: Seq<char>) -> Seq<Seq<char>> {
    let p = split_char(s, '\n');
    let body = strip_crs(p.drop_last());
    if p.last().len() == 0 {
        body
    } else {
        body.push(p.last())
    }
}

/// Pieces that are non-empty after trimming, trimmed.
pub open spec fn trimmed_nonempty(p: Seq<Seq<char>>) -> Seq<Seq<char>>
    decreases p.len(),
{
    if p.len() == 0 {
        Seq::empty()
    } else {
        let rest = trimmed_nonempty(p.drop_last());
        let t = trim(p.last());
        if t.len() > 0 {
            rest.push(t)
        } else {
            rest
        }
    }
}

/// Replace every occurrence of the character `from` by the character `to`.
pub open spec fn replace_char(s: Seq<char>, from: char, to: char) -> Seq<char> {
    Seq::new(s.len(), |i: int| if s[i] == from { to } else { s[i] })
}

pub open spec fn is_digit(c: char) -> bool {
    48 <= (c as u32) && (c as u32) <= 57
}

pub open spec fn all_digits(s: Seq<char>) -> bool {
    forall|i: int| 0 <= i < s.len() ==> is_digit(#[trigger] s[i])
}

pub open spec fn digit_value(c: char) -> nat {
    ((c as u32) - 48) as nat
}

pub open spec fn digits_value(s: Seq<char>) -> nat
    decreases s.len(),
{
    if s.len() == 0 {
        0
    } else {
        digits_value(s.drop_last()) * 10 + digit_value(s.last())
    }
}

/// Unsigned integer parsing as `str::parse` does it: an optional `+`, then
/// at least one ASCII digit, and a value that does not exceed `max`.
pub open spec fn parse_uint(s: Seq<char>, max: nat) -> Option<nat> {
    let d = if s.len() > 0 && s[0] == '+' {
        s.drop_first()
    } else {
        s
    };
    if d.len() > 0 && all_digits(d) && digits_value(d) <= max {
        Some(digits_value(d))
    } else {
        None
    }
}

pub open spec fn digit_char(d: nat) -> char {
    (d + 48) as char
}

/// Decimal representation of a natural number.
pub open spec fn dec(n: nat) -> Seq<char>
    decreases n,
{
    if n < 10 {
        seq![digit_char(n)]
    } else {
        dec(n / 10).push(digit_char(n % 10))
    }
}

/// Map every element through `f` and concatenate.
pub open spec fn concat_all(p: Seq<Seq<char>>) -> Seq<char>
    decreases p.len(),
{
    if p.len() == 0 {
        Seq::empty()
    } else {
        concat_all(p.drop_last()) + p.last()
    }
}

// ---------------------------------------------------------------------------
// Lemmas
// ---------------------------------------------------------------------------

pub proof fn lemma_find_char_none(s: Seq<char>, c: char)
    requires
        forall|j: int| 0 <= j < s.len() ==> s[j] != c,
    ensures
        find_char(s, c) is None,
    decreases s.len(),
{
    if s.len() > 0 {
        lemma_find_char_none(s.drop_first(), c);
    }
}

pub proof fn lemma_find_char_at(s: Seq<char>, c: char, i: int)
    requires
        0 <= i < s.len(),
        s[i] == c,
        forall|j: int| 0 <= j < i ==> s[j] != c,
    ensures
        find_char(s, c) == Some(i),
    decreases s.len(),
{
    if i > 0 {
        lemma_find_char_at(s.drop_first(), c, i - 1);
    }
}

pub proof fn lemma_find_char_props(s: Seq<char>, c: char)
    ensures
        match find_char(s, c) {
            Some(i) => 0 <= i < s.len() && s[i] == c && forall|j: int| 0 <= j < i ==> s[j] != c,
            None => forall|j: int| 0 <= j < s.len() ==> s[j] != c,
        },
    decreases s.len(),
{
    if s.len() > 0 {
        lemma_find_char_props(s.drop_first(), c);
        if s[0] != c {
            match find_char(s.drop_first(), c) {
                Some(i) => {
                    assert forall|j: int| 0 <= j < i + 1 implies s[j] != c by {
                        if j > 0 {
                            assert(s[j] == s.drop_first()[j - 1]);
                        }
                    }
                },
                None => {
                    assert forall|j: int| 0 <= j < s.len() implies s[j] != c by {
                        if j > 0 {
                            assert(s[j] == s.drop_first()[j - 1]);
                        }
                    }
                },
            }
        }
    }
}

pub proof fn lemma_rfind_char_props(s: Seq<char>, c: char)
    ensures
        match rfind_char(s, c) {
            Some(i) => 0 <= i < s.len() && s[i] == c && forall|j: int| i < j < s.len() ==> s[j]
                != c,
            None => forall|j: int| 0 <= j < s.len() ==> s[j] != c,
        },
    decreases s.len(),
{
    if s.len() > 0 {
        lemma_rfind_char_props(s.drop_last(), c);
        if s.last() != c {
            let t = s.drop_last();
            assert forall|j: int| 0 <= j < t.len() implies t[j] == s[j] by {}
        }
    }
}

pub proof fn lemma_rfind_char_at(s: Seq<char>, c: char, i: int)
    requires
        0 <= i < s.len(),
        s[i] == c,
        forall|j: int| i < j < s.len() ==> s[j] != c,
    ensures
        rfind_char(s, c) == Some(i),
    decreases s.len(),
{
    if i < s.len() - 1 {
        lemma_rfind_char_at(s.drop_last(), c, i);
    }
}

pub proof fn lemma_rfind_char_none(s: Seq<char>, c: char)
    requires
        forall|j: int| 0 <= j < s.len() ==> s[j] != c,
    ensures
        rfind_char(s, c) is None,
    decreases s.len(),
{
    if s.len() > 0 {
        lemma_rfind_char_none(s.drop_last(), c);
    }
}

pub proof fn lemma_digits_value_prefix(s: Seq<char>, i: int)
    requires
        0 <= i <= s.len(),
    ensures
        digits_value(s.take(i)) <= digits_value(s),
    decreases s.len(),
{
    if i < s.len() {
        assert(s.drop_last().take(i) == s.take(i));
        lemma_digits_value_prefix(s.drop_last(), i);
    } else {
        assert(s.take(i) == s);
    }
}

pub proof fn lemma_trim_start_skip(s: Seq<char>, i: int)
    requires
        0 <= i < s.len(),
        is_ws(s[i]),
    ensures
        trim_start(s.subrange(i, s.len() as int)) == trim_start(s.subrange(i + 1, s.len() as int)),
{
    assert(s.subrange(i, s.len() as int).drop_first() == s.subrange(i + 1, s.len() as int));
}

/// Text without the separator is one piece.
pub proof fn lemma_split_scan_none(s: Seq<char>, sep: char)
    requires
        forall|i: int| 0 <= i < s.len() ==> s[i] != sep,
    ensures
        split_scan(s, sep) == (Seq::<Seq<char>>::empty(), s),
    decreases s.len(),
{
    if s.len() > 0 {
        lemma_split_scan_none(s.drop_last(), sep);
        assert(s.drop_last().push(s.last()) =~= s);
    }
}

/// The first piece is the text before the first separator.
pub proof fn lemma_split_scan_first(a: Seq<char>, sep: char, b: Seq<char>)
    requires
        forall|i: int| 0 <= i < a.len() ==> a[i] != sep,
    ensures
        split_scan(a.push(sep) + b, sep).0.len() >= 1,
        split_scan(a.push(sep) + b, sep).0[0] == a,
    decreases b.len(),
{
    if b.len() == 0 {
        assert(a.push(sep) + b =~= a.push(sep));
        lemma_split_scan_none(a, sep);
        assert(a.push(sep).drop_last() =~= a);
    } else {
        lemma_split_scan_first(a, sep, b.drop_last());
        assert((a.push(sep) + b).drop_last() =~= a.push(sep) + b.drop_last());
    }
}

/// What `trim_start` leaves does not begin with whitespace.
pub proof fn lemma_trim_start_solid(s: Seq<char>)
    ensures
        trim_start(s).len() == 0 || !is_ws(trim_start(s)[0]),
    decreases s.len(),
{
    if s.len() > 0 && is_ws(s[0]) {
        lemma_trim_start_solid(s.drop_first());
    }
}

/// `trim_end` of text that does not begin with whitespace leaves text that
/// neither begins nor ends with it.
pub proof fn lemma_trim_end_solid(s: Seq<char>)
    requires
        s.len() == 0 || !is_ws(s[0]),
    ensures
        trim_end(s).len() == 0 || (!is_ws(trim_end(s)[0]) && !is_ws(trim_end(s).last())),
    decreases s.len(),
{
    if s.len() > 0 && is_ws(s.last()) {
        lemma_trim_end_solid(s.drop_last());
    }
}

/// Text that neither begins nor ends with whitespace is its own trim.
pub proof fn lemma_trim_fixed(s: Seq<char>)
    requires
        s.len() == 0 || (!is_ws(s[0]) && !is_ws(s.last())),
    ensures
        trim(s) == s,
{
    assert(trim_start(s) == s);
    assert(trim_end(s) == s);
}

/// Trimming twice is trimming once.
pub proof fn lemma_trim_idempotent(s: Seq<char>)
    ensures
        trim(trim(s)) == trim(s),
        trim(s).len() == 0 || (!is_ws(trim(s)[0]) && !is_ws(trim(s).last())),
{
    lemma_trim_start_solid(s);
    lemma_trim_end_solid(trim_start(s));
    lemma_trim_fixed(trim(s));
}

/// The decimal text of `n` is a non-empty run of digits whose value is `n`.
pub proof fn lemma_dec_digits(n: nat)
    ensures
        dec(n).len() > 0,
        all_digits(dec(n)),
        digits_value(dec(n)) == n,
    decreases n,
{
    if n >= 10 {
        lemma_dec_digits(n / 10);
        let d = dec(n);
        assert(d.drop_last() == dec(n / 10));
        assert forall|i: int| 0 <= i < d.len() implies is_digit(#[trigger] d[i]) by {
            if i < d.len() - 1 {
                assert(d[i] == dec(n / 10)[i]);
            }
        }
        assert(n == (n / 10) * 10 + n % 10);
        assert(digit_value(d.last()) == n % 10);
        assert(digits_value(d) == digits_value(dec(n / 10)) * 10 + n % 10);
        assert(digits_value(d) == n);
    } else {
        assert(dec(n).drop_last() =~= Seq::<char>::empty());
        assert(digits_value(Seq::<char>::empty()) == 0);
        assert(digit_value(dec(n).last()) == n);
        assert(digits_value(dec(n)) == n);
    }
}

// ---------------------------------------------------------------------------
// Executable functions
// ---------------------------------------------------------------------------

/// The characters of a string slice.
pub fn chars_of(s: &str) -> (v: Vec<char>)
    ensures
        v@ == s@,
{
    let mut v: Vec<char> = Vec::new();
    for c in it: s.chars()
        invariant
            v@ == it.seq().take(it.index() as int),
            it.seq() == s@,
    {
        v.push(c);
    }
    v
}

/// `String::push`.
#[verifier::external_body]
fn string_push(s: &mut String, c: char)
    ensures
        final(s)@ == old(s)@.push(c),
{
    s.push(c);
}

/// A string holding exactly the given characters.
pub fn string_of(v: &Vec<char>) -> (s: String)
    ensures
        s@ == v@,
{
    let mut s = String::new();
    let mut i: usize = 0;
    while i < v.len()
        invariant
            i <= v.len(),
            s@ == v@.take(i as int),
        decreases v.len() - i,
    {
        string_push(&mut s, v[i]);
        i += 1;
        assert(v@.take(i as int) == v@.take(i - 1).push(v@[i - 1]));
    }
    assert(v@.take(v.len() as int) == v@);
    s
}

/// A string from a string slice.
pub fn owned(s: &str) -> (r: String)
    ensures
        r@ == s@,
{
    let v = chars_of(s);
    string_of(&v)
}

/// A copy of `s[lo..hi]`.
pub fn slice(s: &Vec<char>, lo: usize, hi: usize) -> (r: Vec<char>)
    requires
        lo <= hi <= s.len(),
    ensures
        r@ == s@.subrange(lo as int, hi as int),
{
    let mut r: Vec<char> = Vec::new();
    let mut i = lo;
    while i < hi
        invariant
            lo <= i <= hi <= s.len(),
            r@ == s@.subrange(lo as int, i as int),
        decreases hi - i,
    {
        r.push(s[i]);
        i += 1;
        assert(s@.subrange(lo as int, i as int) == s@.subrange(lo as int, i - 1).push(s@[i - 1]));
    }
    r
}

/// Appends all of `b` to `a`.
pub fn append(a: &mut Vec<char>, b: &Vec<char>)
    ensures
        final(a)@ == old(a)@ + b@,
{
    let mut i: usize = 0;
    while i < b.len()
        invariant
            i <= b.len(),
            a@ == old(a)@ + b@.take(i as int),
        decreases b.len() - i,
    {
        a.push(b[i]);
        i += 1;
        assert(b@.take(i as int) == b@.take(i - 1).push(b@[i - 1]));
    }
    assert(b@.take(b.len() as int) == b@);
}

/// Appends the characters of a string slice.
pub fn append_str(a: &mut Vec<char>, b: &str)
    ensures
        final(a)@ == old(a)@ + b@,
{
    let v = chars_of(b);
    append(a, &v);
}

/// `a + b`.
pub fn concat(a: &Vec<char>, b: &Vec<char>) -> (r: Vec<char>)
    ensures
        r@ == a@ + b@,
{
    let mut r = slice(a, 0, a.len());
    assert(a@.subrange(0, a.len() as int) == a@);
    append(&mut r, b);
    r
}

/// Equality of two character sequences.
pub fn eq(a: &Vec<char>, b: &Vec<char>) -> (r: bool)
    ensures
        r == (a@ == b@),
{
    if a.len() != b.len() {
        return false;
    }
    let mut i: usize = 0;
    while i < a.len()
        invariant
            a.len() == b.len(),
            i <= a.len(),
            forall|j: int| 0 <= j < i ==> a@[j] == b@[j],
        decreases a.len() - i,
    {
        if a[i] != b[i] {
            return false;
        }
        i += 1;
    }
    assert(a@ == b@);
    true
}

/// Equality with a string slice.
pub fn eq_str(a: &Vec<char>, b: &str) -> (r: bool)
    ensures
        r == (a@ == b@),
{
    let v = chars_of(b);
    eq(a, &v)
}

pub fn is_ws_char(c: char) -> (r: bool)
    ensures
        r == is_ws(c),
{
    let u = c as u32;
    (9 <= u && u <= 13) || u == 32 || u == 0x85 || u == 0xA0 || u == 0x1680 || (0x2000 <= u && u
        <= 0x200A) || u == 0x2028 || u == 0x2029 || u == 0x202F || u == 0x205F || u == 0x3000
}

/// `str::trim`.
pub fn trim_vec(s: &Vec<char>) -> (r: Vec<char>)
    ensures
        r@ == trim(s@),
{
    let n = s.len();
    let mut i: usize = 0;
    assert(s@.subrange(0, n as int) == s@);
    while i < n && is_ws_char(s[i])
        invariant
            i <= n == s.len(),
            trim_start(s@) == trim_start(s@.subrange(i as int, n as int)),
        decreases n - i,
    {
        proof {
            lemma_trim_start_skip(s@, i as int);
        }
        i += 1;
    }
    let ghost mid = s@.subrange(i as int, n as int);
    assert(trim_start(mid) == mid);
    let mut j: usize = n;
    while j > i && is_ws_char(s[j - 1])
        invariant
            i <= j <= n == s.len(),
            mid == s@.subrange(i as int, n as int),
            trim_end(mid) == trim_end(s@.subrange(i as int, j as int)),
        decreases j - i,
    {
        assert(s@.subrange(i as int, j as int).drop_last() == s@.subrange(i as int, j - 1));
        j -= 1;
    }
    slice(s, i, j)
}

/// `str::trim_end`.
pub fn trim_end_vec(s: &Vec<char>) -> (r: Vec<char>)
    ensures
        r@ == trim_end(s@),
{
    let n = s.len();
    let mut j: usize = n;
    assert(s@.subrange(0, n as int) == s@);
    while j > 0 && is_ws_char(s[j - 1])
        invariant
            j <= n == s.len(),
            trim_end(s@) == trim_end(s@.subrange(0, j as int)),
        decreases j,
    {
        assert(s@.subrange(0, j as int).drop_last() == s@.subrange(0, j - 1));
        j -= 1;
    }
    slice(s, 0, j)
}

/// `str::trim` on a string slice.
pub fn trim_str(s: &str) -> (r: Vec<char>)
    ensures
        r@ == trim(s@),
{
    let v = chars_of(s);
    trim_vec(&v)
}

pub fn lower_char_exec(c: char) -> (r: char)
    ensures
        r == lower_char(c),
{
    if 'A' <= c && c <= 'Z' {
        ((c as u8) + 32) as char
    } else {
        c
    }
}

pub fn upper_char_exec(c: char) -> (r: char)
    ensures
        r == upper_char(c),
{
    if 'a' <= c && c <= 'z' {
        ((c as u8) - 32) as char
    } else {
        c
    }
}

/// `str::to_ascii_lowercase`.
pub fn lower_vec(s: &Vec<char>) -> (r: Vec<char>)
    ensures
        r@ == lower(s@),
{
    let mut r: Vec<char> = Vec::new();
    let mut i: usize = 0;
    while i < s.len()
        invariant
            i <= s.len(),
            r@.len() == i,
            forall|j: int| 0 <= j < i ==> r@[j] == lower_char(s@[j]),
        decreases s.len() - i,
    {
        r.push(lower_char_exec(s[i]));
        i += 1;
    }
    assert(r@ == lower(s@));
    r
}

/// `str::to_ascii_uppercase`.
pub fn upper_vec(s: &Vec<char>) -> (r: Vec<char>)
    ensures
        r@ == upper(s@),
{
    let mut r: Vec<char> = Vec::new();
    let mut i: usize = 0;
    while i < s.len()
        invariant
            i <= s.len(),
            r@.len() == i,
            forall|j: int| 0 <= j < i ==> r@[j] == upper_char(s@[j]),
        decreases s.len() - i,
    {
        r.push(upper_char_exec(s[i]));
        i += 1;
    }
    assert(r@ == upper(s@));
    r
}

/// `str::eq_ignore_ascii_case`.
pub fn eq_ignore_case(a: &Vec<char>, b: &Vec<char>) -> (r: bool)
    ensures
        r == eq_ic(a@, b@),
{
    let la = lower_vec(a);
    let lb = lower_vec(b);
    eq(&la, &lb)
}

/// `str::eq_ignore_ascii_case` against a string slice.
pub fn eq_ignore_case_str(a: &Vec<char>, b: &str) -> (r: bool)
    ensures
        r == eq_ic(a@, b@),
{
    let v = chars_of(b);
    eq_ignore_case(a, &v)
}

/// `str::starts_with`.
pub fn starts_with_vec(s: &Vec<char>, p: &Vec<char>) -> (r: bool)
    ensures
        r == starts_with(s@, p@),
{
    if p.len() > s.len() {
        return false;
    }
    let head = slice(s, 0, p.len());
    eq(&head, p)
}

/// `str::starts_with` against a string slice.
pub fn starts_with_str(s: &Vec<char>, p: &str) -> (r: bool)
    ensures
        r == starts_with(s@, p@),
{
    let v = chars_of(p);
    starts_with_vec(s, &v)
}

/// `str::ends_with`.
pub fn ends_with_vec(s: &Vec<char>, p: &Vec<char>) -> (r: bool)
    ensures
        r == ends_with(s@, p@),
{
    if p.len() > s.len() {
        return false;
    }
    let tail = slice(s, s.len() - p.len(), s.len());
    eq(&tail, p)
}

/// `str::ends_with` against a string slice.
pub fn ends_with_str(s: &Vec<char>, p: &str) -> (r: bool)
    ensures
        r == ends_with(s@, p@),
{
    let v = chars_of(p);
    ends_with_vec(s, &v)
}

/// `str::contains` with a string pattern.
pub fn contains_vec(s: &Vec<char>, pat: &Vec<char>) -> (r: bool)
    ensures
        r == contains(s@, pat@),
{
    if pat.len() > s.len() {
        assert forall|i: int| !occurs_at(s@, pat@, i) by {}
        return false;
    }
    if pat.len() == 0 {
        assert(s@.subrange(0, 0) =~= pat@);
        assert(occurs_at(s@, pat@, 0));
        return true;
    }
    let mut i: usize = 0;
    let last = s.len() - pat.len();
    while i <= last
        invariant
            0 < pat.len() <= s.len(),
            last == s.len() - pat.len(),
            i <= last + 1,
            forall|j: int| 0 <= j < i ==> !occurs_at(s@, pat@, j),
        decreases last + 1 - i,
    {
        let window = slice(s, i, i + pat.len());
        if eq(&window, pat) {
            assert(occurs_at(s@, pat@, i as int));
            return true;
        }
        i += 1;
    }
    assert forall|j: int| !occurs_at(s@, pat@, j) by {
        if 0 <= j && j + pat.len() <= s.len() {
            assert(j < i);
        }
    }
    false
}

/// `str::contains` against a string slice pattern.
pub fn contains_str(s: &Vec<char>, pat: &str) -> (r: bool)
    ensures
        r == contains(s@, pat@),
{
    let v = chars_of(pat);
    contains_vec(s, &v)
}

/// Position of the first `c`.
pub fn find_char_exec(s: &Vec<char>, c: char) -> (r: Option<usize>)
    ensures
        r matches Some(i) ==> find_char(s@, c) == Some(i as int),
        r is None ==> find_char(s@, c) is None,
{
    let mut i: usize = 0;
    while i < s.len()
        invariant
            i <= s.len(),
            forall|j: int| 0 <= j < i ==> s@[j] != c,
        decreases s.len() - i,
    {
        if s[i] == c {
            proof {
                lemma_find_char_at(s@, c, i as int);
            }
            return Some(i);
        }
        i += 1;
    }
    proof {
        lemma_find_char_none(s@, c);
    }
    None
}

/// Position of the last `c`.
pub fn rfind_char_exec(s: &Vec<char>, c: char) -> (r: Option<usize>)
    ensures
        r matches Some(i) ==> rfind_char(s@, c) == Some(i as int),
        r is None ==> rfind_char(s@, c) is None,
{
    let mut i: usize = s.len();
    while i > 0
        invariant
            i <= s.len(),
            forall|j: int| i <= j < s.len() ==> s@[j] != c,
        decreases i,
    {
        if s[i - 1] == c {
            proof {
                lemma_rfind_char_at(s@, c, i - 1);
            }
            return Some(i - 1);
        }
        i -= 1;
    }
    proof {
        lemma_rfind_char_none(s@, c);
    }
    None
}

/// `str::split_once` with a character separator.
pub fn split_once_exec(s: &Vec<char>, c: char) -> (r: Option<(Vec<char>, Vec<char>)>)
    ensures
        match r {
            Some((a, b)) => split_once(s@, c) == Some((a@, b@)),
            None => split_once(s@, c) is None,
        },
{
    match find_char_exec(s, c) {
        Some(i) => {
            proof {
                lemma_find_char_props(s@, c);
            }
            assert(i < s.len());
            Some((slice(s, 0, i), slice(s, i + 1, s.len())))
        },
        None => None,
    }
}

/// `str::rsplit_once` with a character separator.
pub fn rsplit_once_exec(s: &Vec<char>, c: char) -> (r: Option<(Vec<char>, Vec<char>)>)
    ensures
        match r {
            Some((a, b)) => rsplit_once(s@, c) == Some((a@, b@)),
            None => rsplit_once(s@, c) is None,
        },
{
    match rfind_char_exec(s, c) {
        Some(i) => {
            proof {
                lemma_rfind_char_props(s@, c);
            }
            assert(i < s.len());
            Some((slice(s, 0, i), slice(s, i + 1, s.len())))
        },
        None => None,
    }
}

/// The views of a vector of character vectors.
pub open spec fn views(v: Seq<Vec<char>>) -> Seq<Seq<char>> {
    v.map_values(|x: Vec<char>| x@)
}

/// `str::split` with a character separator.
pub fn split_char_exec(s: &Vec<char>, sep: char) -> (r: Vec<Vec<char>>)
    ensures
        views(r@) == split_char(s@, sep),
{
    let mut done: Vec<Vec<char>> = Vec::new();
    let mut cur: Vec<char> = Vec::new();
    let mut i: usize = 0;
    while i < s.len()
        invariant
            i <= s.len(),
            split_scan(s@.take(i as int), sep) == (views(done@), cur@),
        decreases s.len() - i,
    {
        assert(s@.take(i + 1).drop_last() == s@.take(i as int));
        if s[i] == sep {
            let piece = cur;
            done.push(piece);
            cur = Vec::new();
            assert(views(done@) =~= views(done@.drop_last()).push(piece@));
        } else {
            cur.push(s[i]);
        }
        i += 1;
    }
    assert(s@.take(s.len() as int) == s@);
    done.push(cur);
    assert(views(done@) =~= views(done@.drop_last()).push(done@.last()@));
    done
}

/// `str::split_whitespace`.
pub fn split_ws_exec(s: &Vec<char>) -> (r: Vec<Vec<char>>)
    ensures
        views(r@) == split_ws(s@),
{
    let mut done: Vec<Vec<char>> = Vec::new();
    let mut cur: Vec<char> = Vec::new();
    let mut i: usize = 0;
    while i < s.len()
        invariant
            i <= s.len(),
            words_scan(s@.take(i as int)) == (views(done@), cur@),
        decreases s.len() - i,
    {
        assert(s@.take(i + 1).drop_last() == s@.take(i as int));
        if is_ws_char(s[i]) {
            if cur.len() > 0 {
                let piece = cur;
                done.push(piece);
                cur = Vec::new();
                assert(views(done@) =~= views(done@.drop_last()).push(piece@));
            }
        } else {
            cur.push(s[i]);
        }
        i += 1;
    }
    assert(s@.take(s.len() as int) == s@);
    if cur.len() > 0 {
        done.push(cur);
        assert(views(done@) =~= views(done@.drop_last()).push(done@.last()@));
    }
    done
}

/// `str::lines`.
pub fn lines_exec(s: &Vec<char>) -> (r: Vec<Vec<char>>)
    ensures
        views(r@) == lines(s@),
{
    let p = split_char_exec(s, '\n');
    let ghost pv = views(p@);
    assert(pv.len() == p.len());
    let mut r: Vec<Vec<char>> = Vec::new();
    let mut i: usize = 0;
    while i + 1 < p.len()
        invariant
            pv == views(p@),
            pv.len() == p.len() >= 1,
            i < p.len(),
            r@.len() == i,
            forall|j: int| 0 <= j < i ==> (#[trigger] r@[j])@ == strip_cr(pv[j]),
        decreases p.len() - i,
    {
        let piece = &p[i];
        let stripped = if piece.len() > 0 && piece[piece.len() - 1] == '\r' {
            slice(piece, 0, piece.len() - 1)
        } else {
            slice(piece, 0, piece.len())
        };
        assert(stripped@ == strip_cr(pv[i as int]));
        r.push(stripped);
        i += 1;
    }
    let ghost body = strip_crs(pv.drop_last());
    assert(views(r@) =~= body);
    let last = &p[p.len() - 1];
    assert(last@ == pv.last());
    assert(pv == split_char(s@, '\n'));
    if last.len() > 0 {
        let piece = slice(last, 0, last.len());
        r.push(piece);
        assert(views(r@) =~= body.push(piece@));
        assert(piece@ == pv.last());
        assert(views(r@) == lines(s@));
    } else {
        assert(views(r@) == lines(s@));
    }
    r
}

/// Trim every piece and keep the ones that are not empty afterwards.
pub fn trimmed_nonempty_exec(p: &Vec<Vec<char>>) -> (r: Vec<Vec<char>>)
    ensures
        views(r@) == trimmed_nonempty(views(p@)),
{
    let ghost pv = views(p@);
    let mut r: Vec<Vec<char>> = Vec::new();
    let mut i: usize = 0;
    while i < p.len()
        invariant
            pv == views(p@),
            i <= p.len(),
            views(r@) == trimmed_nonempty(pv.take(i as int)),
        decreases p.len() - i,
    {
        assert(pv.take(i + 1).drop_last() == pv.take(i as int));
        let t = trim_vec(&p[i]);
        if t.len() > 0 {
            r.push(t);
            assert(views(r@) =~= views(r@.drop_last()).push(r@.last()@));
        }
        i += 1;
    }
    assert(pv.take(p.len() as int) == pv);
    r
}

/// Replace one character by another everywhere.
pub fn replace_char_exec(s: &Vec<char>, from: char, to: char) -> (r: Vec<char>)
    ensures
        r@ == replace_char(s@, from, to),
{
    let mut r: Vec<char> = Vec::new();
    let mut i: usize = 0;
    while i < s.len()
        invariant
            i <= s.len(),
            r@.len() == i,
            forall|j: int| 0 <= j < i ==> r@[j] == (if s@[j] == from { to } else { s@[j] }),
        decreases s.len() - i,
    {
        let c = s[i];
        r.push(if c == from { to } else { c });
        i += 1;
    }
    assert(r@ == replace_char(s@, from, to));
    r
}

/// Parses an unsigned decimal number not larger than `max`.
pub fn parse_uint_exec(s: &Vec<char>, max: u64) -> (r: Option<u64>)
    ensures
        match r {
            Some(v) => parse_uint(s@, max as nat) == Some(v as nat),
            None => parse_uint(s@, max as nat) is None,
        },
{
    let start: usize = if s.len() > 0 && s[0] == '+' {
        1
    } else {
        0
    };
    let ghost d = if s@.len() > 0 && s@[0] == '+' {
        s@.drop_first()
    } else {
        s@
    };
    assert(d == s@.subrange(start as int, s.len() as int));
    if start >= s.len() {
        return None;
    }
    let mut acc: u128 = 0;
    let mut i = start;
    while i < s.len()
        invariant
            start <= i <= s.len(),
            d == s@.subrange(start as int, s.len() as int),
            d == (if s@.len() > 0 && s@[0] == '+' {
                s@.drop_first()
            } else {
                s@
            }),
            d.len() > 0,
            all_digits(d.take(i - start)),
            acc as nat == digits_value(d.take(i - start)),
            acc <= max,
        decreases s.len() - i,
    {
        let c = s[i];
        let u = c as u32;
        if !(48 <= u && u <= 57) {
            assert(!all_digits(d)) by {
                assert(d[i - start] == c);
                assert(!is_digit(d[i - start]));
            }
            return None;
        }
        let digit = (c as u32 - 48) as u128;
        assert(d.take(i - start + 1).drop_last() == d.take(i - start));
        assert(d.take(i - start + 1).last() == c);
        acc = acc * 10 + digit;
        i += 1;
        assert(all_digits(d.take(i - start))) by {
            assert forall|j: int| 0 <= j < d.take(i - start).len() implies is_digit(
                #[trigger] d.take(i - start)[j],
            ) by {
                if j < i - start - 1 {
                    assert(d.take(i - start)[j] == d.take(i - start - 1)[j]);
                }
            }
        }
        if acc > max as u128 {
            proof {
                if all_digits(d) {
                    lemma_digits_value_prefix(d, i - start);
                }
            }
            return None;
        }
    }
    assert(d.take(s.len() - start) == d);
    Some(acc as u64)
}

/// Parses a `u16` as `str::parse::<u16>` does.
pub fn parse_u16(s: &Vec<char>) -> (r: Option<u16>)
    ensures
        match r {
            Some(v) => parse_uint(s@, 0xffff) == Some(v as nat),
            None => parse_uint(s@, 0xffff) is None,
        },
{
    match parse_uint_exec(s, 0xffff) {
        Some(v) => Some(v as u16),
        None => None,
    }
}

/// Parses a `u8` as `str::parse::<u8>` does.
pub fn parse_u8(s: &Vec<char>) -> (r: Option<u8>)
    ensures
        match r {
            Some(v) => parse_uint(s@, 0xff) == Some(v as nat),
            None => parse_uint(s@, 0xff) is None,
        },
{
    match parse_uint_exec(s, 0xff) {
        Some(v) => Some(v as u8),
        None => None,
    }
}

/// Parses a `u32` as `str::parse::<u32>` does.
pub fn parse_u32(s: &Vec<char>) -> (r: Option<u32>)
    ensures
        match r {
            Some(v) => parse_uint(s@, 0xffff_ffff) == Some(v as nat),
            None => parse_uint(s@, 0xffff_ffff) is None,
        },
{
    match parse_uint_exec(s, 0xffff_ffff) {
        Some(v) => Some(v as u32),
        None => None,
    }
}

/// Parses a `u64` as `str::parse::<u64>` does.
pub fn parse_u64(s: &Vec<char>) -> (r: Option<u64>)
    ensures
        match r {
            Some(v) => parse_uint(s@, u64::MAX as nat) == Some(v as nat),
            None => parse_uint(s@, u64::MAX as nat) is None,
        },
{
    parse_uint_exec(s, u64::MAX)
}

/// Parses a `usize` as `str::parse::<usize>` does.
pub fn parse_usize(s: &Vec<char>) -> (r: Option<usize>)
    ensures
        match r {
            Some(v) => parse_uint(s@, usize::MAX as nat) == Some(v as nat),
            None => parse_uint(s@, usize::MAX as nat) is None,
        },
{
    match parse_uint_exec(s, usize::MAX as u64) {
        Some(v) => Some(v as usize),
        None => None,
    }
}

/// Decimal digits of a number.
pub fn dec_exec(n: u64) -> (r: Vec<char>)
    ensures
        r@ == dec(n as nat),
    decreases n,
{
    if n < 10 {
        let c = ((n as u8) + 48) as char;
        let mut v = Vec::new();
        v.push(c);
        assert(v@ == seq![digit_char(n as nat)]);
        v
    } else {
        let mut v = dec_exec(n / 10);
        let c = (((n % 10) as u8) + 48) as char;
        v.push(c);
        v
    }
}

} // verus!

verus! {

/// Position of the first occurrence of `pat` in `s`.
pub open spec fn find_sub(s: Seq<char>, pat: Seq<char>) -> Option<int>
    decreases s.len(),
{
    if s.len() < pat.len() {
        None
    } else if s.subrange(0, pat.len() as int) == pat {
        Some(0)
    } else if s.len() == 0 {
        None
    } else {
        match find_sub(s.drop_first(), pat) {
            Some(i) => Some(i + 1),
            None => None,
        }
    }
}

pub proof fn lemma_find_sub_props(s: Seq<char>, pat: Seq<char>)
    ensures
        match find_sub(s, pat) {
            Some(i) => occurs_at(s, pat, i) && forall|j: int| 0 <= j < i ==> !occurs_at(s, pat, j),
            None => forall|j: int| !occurs_at(s, pat, j),
        },
    decreases s.len(),
{
    if s.len() < pat.len() {
    } else if s.subrange(0, pat.len() as int) == pat {
    } else if s.len() == 0 {
    } else {
        let t = s.drop_first();
        lemma_find_sub_props(t, pat);
        assert forall|j: int| 0 <= j && j + 1 + pat.len() <= s.len() implies (occurs_at(s, pat, j + 1)
            <==> occurs_at(t, pat, j)) by {
            assert(s.subrange(j + 1, j + 1 + pat.len()) =~= t.subrange(j, j + pat.len()));
        }
        match find_sub(t, pat) {
            Some(i) => {
                assert forall|j: int| 0 <= j < i + 1 implies !occurs_at(s, pat, j) by {
                    if j > 0 {
                        assert(!occurs_at(t, pat, j - 1));
                    }
                }
            },
            None => {
                assert forall|j: int| !occurs_at(s, pat, j) by {
                    if j > 0 && j + pat.len() <= s.len() {
                        assert(!occurs_at(t, pat, j - 1));
                    }
                }
            },
        }
    }
}

pub proof fn lemma_find_sub_at(s: Seq<char>, pat: Seq<char>, i: int)
    requires
        occurs_at(s, pat, i),
        forall|j: int| 0 <= j < i ==> !occurs_at(s, pat, j),
    ensures
        find_sub(s, pat) == Some(i),
{
    lemma_find_sub_props(s, pat);
    match find_sub(s, pat) {
        Some(k) => {
            if k < i {
            } else if k > i {
            }
        },
        None => {},
    }
}

pub proof fn lemma_find_sub_none(s: Seq<char>, pat: Seq<char>)
    requires
        forall|j: int| !occurs_at(s, pat, j),
    ensures
        find_sub(s, pat) is None,
{
    lemma_find_sub_props(s, pat);
}

/// Position of the first occurrence of `pat`.
pub fn find_sub_exec(s: &Vec<char>, pat: &Vec<char>) -> (r: Option<usize>)
    ensures
        match r {
            Some(i) => find_sub(s@, pat@) == Some(i as int) && i + pat@.len() <= s@.len(),
            None => find_sub(s@, pat@) is None,
        },
{
    if pat.len() > s.len() {
        proof {
            lemma_find_sub_none(s@, pat@);
        }
        return None;
    }
    let last = s.len() - pat.len();
    let mut i: usize = 0;
    while i <= last
        invariant
            pat.len() <= s.len(),
            last == s.len() - pat.len(),
            i <= last + 1,
            forall|j: int| 0 <= j < i ==> !occurs_at(s@, pat@, j),
        decreases last + 1 - i,
    {
        let window = slice(s, i, i + pat.len());
        if eq(&window, pat) {
            proof {
                lemma_find_sub_at(s@, pat@, i as int);
            }
            return Some(i);
        }
        if i == last {
            assert forall|j: int| !occurs_at(s@, pat@, j) by {
                if 0 <= j && j + pat.len() <= s.len() {
                    assert(j <= i);
                }
            }
            proof {
                lemma_find_sub_none(s@, pat@);
            }
            return None;
        }
        i += 1;
    }
    proof {
        assert forall|j: int| !occurs_at(s@, pat@, j) by {
            if 0 <= j && j + pat.len() <= s.len() {
                assert(j < i);
            }
        }
        lemma_find_sub_none(s@, pat@);
    }
    None
}

} // verus!
