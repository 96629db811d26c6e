//! Character-level string helpers shared by the rules of the library.

use vstd::prelude::*;

verus! {

broadcast use vstd::string::group_string_axioms;

/// Collects the characters of `s`.
pub fn chars_of(s: &str) -> (r: Vec<char>)
    ensures
        r@ == s@,
{
    let mut out: Vec<char> = Vec::new();
    for c in it: s.chars()
        invariant
            it.seq() == s@,
            out@ == it.seq().take(it.index() as int),
    {
        out.push(c);
    }
    out
}

/// Appends `c` to `s` with `String::push`.
#[verifier::external_body]
fn push_char(s: &mut String, c: char)
    ensures
        final(s)@ == old(s)@.push(c),
{
    s.push(c);
}

/// Builds a string holding exactly the characters `cs[from..to]`.
pub fn string_of_range(cs: &Vec<char>, from: usize, to: usize) -> (r: String)
    requires
        from <= to <= cs@.len(),
    ensures
        r@ == cs@.subrange(from as int, to as int),
{
    let mut out = String::new();
    let mut i: usize = from;
    while i < to
        invariant
            from <= i <= to <= cs@.len(),
            out@ == cs@.subrange(from as int, i as int),
        decreases to - i,
    {
        push_char(&mut out, cs[i]);
        assert(cs@.subrange(from as int, i as int).push(cs@[i as int]) =~= cs@.subrange(
            from as int,
            i + 1,
        ));
        i = i + 1;
    }
    out
}


/// Whether `c` has the Unicode `White_Space` property.
pub uninterp spec fn white_space(c: char) -> bool;

/// Calls `char::is_whitespace`. The contract claims only that the answer is the
/// `White_Space` property of `c`, named by `white_space`; which characters have it
/// is left to the Unicode tables that std carries.
#[verifier::external_body]
fn is_white_space(c: char) -> (r: bool)
    ensures
        r == white_space(c),
{
    c.is_whitespace()
}

/// `s` without its leading white space.
pub open spec fn trim_start(s: Seq<char>) -> Seq<char>
    decreases s.len(),
{
    if s.len() > 0 && white_space(s[0]) {
        trim_start(s.drop_first())
    } else {
        s
    }
}

/// `s` without its trailing white space.
pub open spec fn trim_end(s: Seq<char>) -> Seq<char>
    decreases s.len(),
{
    if s.len() > 0 && white_space(s.last()) {
        trim_end(s.drop_last())
    } else {
        s
    }
}

/// `s` without leading and trailing white space, as `str::trim` gives it.
pub open spec fn trimmed(s: Seq<char>) -> Seq<char> {
    trim_end(trim_start(s))
}

proof fn lemma_trim_start_shape(s: Seq<char>)
    ensures
        trim_start(s).len() == 0 || !white_space(trim_start(s)[0]),
        trim_start(s).len() <= s.len(),
        trim_start(s) == s.subrange(s.len() - trim_start(s).len(), s.len() as int),
    decreases s.len(),
{
    if s.len() > 0 && white_space(s[0]) {
        lemma_trim_start_shape(s.drop_first());
        assert(s.drop_first().subrange(
            s.drop_first().len() - trim_start(s).len(),
            s.drop_first().len() as int,
        ) =~= s.subrange(s.len() - trim_start(s).len(), s.len() as int));
    } else {
        assert(s.subrange(0, s.len() as int) =~= s);
    }
}

proof fn lemma_trim_end_shape(s: Seq<char>)
    ensures
        trim_end(s).len() == 0 || !white_space(trim_end(s).last()),
        trim_end(s).len() <= s.len(),
        trim_end(s) == s.take(trim_end(s).len() as int),
    decreases s.len(),
{
    if s.len() > 0 && white_space(s.last()) {
        lemma_trim_end_shape(s.drop_last());
        assert(s.drop_last().take(trim_end(s).len() as int) =~= s.take(trim_end(s).len() as int));
    } else {
        assert(s.take(s.len() as int) =~= s);
    }
}

/// Trimming twice gives what trimming once gives.
pub proof fn lemma_trimmed_idempotent(s: Seq<char>)
    ensures
        trimmed(trimmed(s)) == trimmed(s),
{
    let ts = trim_start(s);
    let t = trim_end(ts);
    lemma_trim_start_shape(s);
    lemma_trim_end_shape(ts);
    if t.len() > 0 {
        assert(t[0] == ts[0]);
        assert(trim_start(t) == t);
        assert(trim_end(t) == t);
    } else {
        assert(trim_start(t) == t);
        assert(trim_end(t) == t);
    }
}

/// Trimming never adds characters.
pub proof fn lemma_trimmed_shorter(s: Seq<char>)
    ensures
        trimmed(s).len() <= s.len(),
{
    lemma_trim_start_shape(s);
    lemma_trim_end_shape(trim_start(s));
}

/// Trims `s` the way `str::trim` does and returns an owned copy.
pub fn trim(s: &str) -> (r: String)
    ensures
        r@ == trimmed(s@),
{
    let cs = chars_of(s);
    let n = cs.len();
    let mut i: usize = 0;
    assert(cs@.subrange(0, n as int) =~= cs@);
    while i < n && is_white_space(cs[i])
        invariant
            i <= n,
            n == cs@.len(),
            trim_start(cs@) == trim_start(cs@.subrange(i as int, n as int)),
        decreases n - i,
    {
        assert(cs@.subrange(i as int, n as int).drop_first() =~= cs@.subrange(i + 1, n as int));
        i = i + 1;
    }
    assert(trim_start(cs@) == cs@.subrange(i as int, n as int));
    let mut j: usize = n;
    while j > i && is_white_space(cs[j - 1])
        invariant
            i <= j <= n,
            n == cs@.len(),
            trim_end(cs@.subrange(i as int, n as int)) == trim_end(cs@.subrange(i as int, j as int)),
        decreases j,
    {
        assert(cs@.subrange(i as int, j as int).drop_last() =~= cs@.subrange(i as int, j - 1));
        j = j - 1;
    }
    string_of_range(&cs, i, j)
}


/// Whether the characters of `a` and `b` are the same.
pub fn same_text(a: &str, b: &str) -> (r: bool)
    ensures
        r == (a@ == b@),
{
    let ca = chars_of(a);
    let cb = chars_of(b);
    if ca.len() != cb.len() {
        return false;
    }
    let mut i: usize = 0;
    while i < ca.len()
        invariant
            i <= ca@.len(),
            ca@.len() == cb@.len(),
            ca@ == a@,
            cb@ == b@,
            forall|k: int| 0 <= k < i ==> ca@[k] == cb@[k],
        decreases ca@.len() - i,
    {
        if ca[i] != cb[i] {
            return false;
        }
        i = i + 1;
    }
    assert(ca@ =~= cb@);
    true
}

/// Whether `s` begins with the characters of `prefix`.
pub open spec fn begins_with(s: Seq<char>, prefix: Seq<char>) -> bool {
    prefix.len() <= s.len() && s.take(prefix.len() as int) == prefix
}

/// Whether `s` starts with `prefix`.
pub fn starts_with(s: &str, prefix: &str) -> (r: bool)
    ensures
        r == begins_with(s@, prefix@),
{
    let cs = chars_of(s);
    let cp = chars_of(prefix);
    if cp.len() > cs.len() {
        return false;
    }
    let mut i: usize = 0;
    while i < cp.len()
        invariant
            i <= cp@.len() <= cs@.len(),
            cs@ == s@,
            cp@ == prefix@,
            forall|k: int| 0 <= k < i ==> cs@[k] == cp@[k],
        decreases cp@.len() - i,
    {
        if cs[i] != cp[i] {
            assert(s@.take(prefix@.len() as int)[i as int] != prefix@[i as int]);
            return false;
        }
        i = i + 1;
    }
    assert(s@.take(prefix@.len() as int) =~= prefix@);
    true
}

/// Whether `needle` occurs in `hay` at position `at`.
pub open spec fn occurs_at(hay: Seq<char>, needle: Seq<char>, at: int) -> bool {
    0 <= at && at + needle.len() <= hay.len() && hay.subrange(at, at + needle.len()) == needle
}

/// Whether `needle` occurs somewhere in `hay`.
pub open spec fn occurs_in(hay: Seq<char>, needle: Seq<char>) -> bool {
    exists|at: int| occurs_at(hay, needle, at)
}

fn matches_at(hay: &Vec<char>, needle: &Vec<char>, at: usize) -> (r: bool)
    requires
        at + needle@.len() <= hay@.len(),
    ensures
        r == occurs_at(hay@, needle@, at as int),
{
    let hl = hay.len();
    let mut i: usize = 0;
    while i < needle.len()
        invariant
            i <= needle@.len(),
            hl == hay@.len(),
            at + needle@.len() <= hay@.len(),
            forall|k: int| 0 <= k < i ==> hay@[at + k] == needle@[k],
        decreases needle@.len() - i,
    {
        if hay[at + i] != needle[i] {
            assert(hay@.subrange(at as int, at + needle@.len())[i as int] != needle@[i as int]);
            return false;
        }
        i = i + 1;
    }
    assert(hay@.subrange(at as int, at + needle@.len()) =~= needle@);
    true
}

/// Whether `needle` occurs in `hay`, as `str::contains` with a string pattern answers.
pub fn contains_text(hay: &str, needle: &str) -> (r: bool)
    ensures
        r == occurs_in(hay@, needle@),
{
    let ch = chars_of(hay);
    let cn = chars_of(needle);
    if cn.len() > ch.len() {
        assert forall|at: int| !occurs_at(hay@, needle@, at) by {}
        return false;
    }
    let last = ch.len() - cn.len();
    let mut at: usize = 0;
    while at < last
        invariant
            last == ch@.len() - cn@.len(),
            at <= last,
            ch@ == hay@,
            cn@ == needle@,
            forall|k: int| 0 <= k < at ==> !occurs_at(hay@, needle@, k),
        decreases last + 1 - at,
    {
        if matches_at(&ch, &cn, at) {
            return true;
        }
        at = at + 1;
    }
    if matches_at(&ch, &cn, last) {
        return true;
    }
    assert forall|k: int| !occurs_at(hay@, needle@, k) by {}
    false
}

/// Whether every character of `s` is ASCII.
pub open spec fn is_ascii_text(s: Seq<char>) -> bool {
    forall|i: int| 0 <= i < s.len() ==> (#[trigger] s[i] as u32) < 128
}

/// `c` with an ASCII upper-case letter turned into its lower-case letter.
pub open spec fn ascii_lower_char(c: char) -> char {
    if 65 <= (c as u32) <= 90 {
        ((c as u32) + 32) as char
    } else {
        c
    }
}

/// `c` with an ASCII lower-case letter turned into its upper-case letter.
pub open spec fn ascii_upper_char(c: char) -> char {
    if 97 <= (c as u32) <= 122 {
        ((c as u32) - 32) as char
    } else {
        c
    }
}

/// `s` with its ASCII letters in lower case.
pub open spec fn ascii_lowercase(s: Seq<char>) -> Seq<char> {
    s.map_values(|c: char| ascii_lower_char(c))
}

/// `s` with its ASCII letters in upper case.
pub open spec fn ascii_uppercase(s: Seq<char>) -> Seq<char> {
    s.map_values(|c: char| ascii_upper_char(c))
}

/// Upper-casing an ASCII text keeps it ASCII and of the same length, and lower-casing
/// it afterwards gives what lower-casing the text itself gives.
pub proof fn lemma_ascii_case_round_trip(s: Seq<char>)
    requires
        is_ascii_text(s),
    ensures
        is_ascii_text(ascii_uppercase(s)),
        ascii_uppercase(s).len() == s.len(),
        ascii_lowercase(ascii_uppercase(s)) == ascii_lowercase(s),
{
    let u = ascii_uppercase(s);
    assert forall|i: int| 0 <= i < u.len() implies (#[trigger] u[i] as u32) < 128 by {
        assert((s[i] as u32) < 128);
    }
    assert(ascii_lowercase(u) =~= ascii_lowercase(s)) by {
        assert forall|i: int| 0 <= i < s.len() implies ascii_lower_char(u[i]) == ascii_lower_char(
            s[i],
        ) by {
            assert(u[i] == ascii_upper_char(s[i]));
        }
    }
}

/// The lower-case form of `s`, as `str::to_lowercase` gives it.
pub uninterp spec fn lowercase(s: Seq<char>) -> Seq<char>;

/// Calls `str::to_lowercase`. The contract names the result: a function of the
/// characters of `s` alone, fixed by the Unicode case tables of std. Beside the name
/// it states one fact of those tables: on an all-ASCII text, the letters `A`..`Z`
/// become `a`..`z` and every other character stays.
#[verifier::external_body]
pub(crate) fn to_lower(s: &str) -> (r: String)
    ensures
        r@ == lowercase(s@),
        is_ascii_text(s@) ==> r@ == ascii_lowercase(s@),
{
    s.to_lowercase()
}

/// The upper-case form of `s`, as `str::to_uppercase` gives it.
pub uninterp spec fn uppercase(s: Seq<char>) -> Seq<char>;

/// Calls `str::to_uppercase`. The contract names the result: a function of the
/// characters of `s` alone, fixed by the Unicode case tables of std. Beside the name
/// it states one fact of those tables: on an all-ASCII text, the letters `a`..`z`
/// become `A`..`Z` and every other character stays.
#[verifier::external_body]
pub(crate) fn to_upper(s: &str) -> (r: String)
    ensures
        r@ == uppercase(s@),
        is_ascii_text(s@) ==> r@ == ascii_uppercase(s@),
{
    s.to_uppercase()
}

/// The decimal digit for `d`, which is below ten.
pub open spec fn digit_char(d: nat) -> char {
    if d == 0 {
        '0'
    } else if d == 1 {
        '1'
    } else if d == 2 {
        '2'
    } else if d == 3 {
        '3'
    } else if d == 4 {
        '4'
    } else if d == 5 {
        '5'
    } else if d == 6 {
        '6'
    } else if d == 7 {
        '7'
    } else if d == 8 {
        '8'
    } else {
        '9'
    }
}

/// The decimal digits of `n`, most significant first, with no leading zero.
pub open spec fn decimal(n: nat) -> Seq<char>
    decreases n,
{
    if n < 10 {
        seq![digit_char(n)]
    } else {
        decimal(n / 10).push(digit_char(n % 10))
    }
}

/// How `Display` writes the integer `n`: its decimal digits, after a `-` when negative.
pub open spec fn signed_decimal(n: int) -> Seq<char> {
    if n < 0 {
        seq!['-'] + decimal((-n) as nat)
    } else {
        decimal(n as nat)
    }
}

/// The decimal digit for `d`.
fn digit_of(d: u64) -> (r: char)
    requires
        d < 10,
    ensures
        r == digit_char(d as nat),
{
    if d == 0 {
        '0'
    } else if d == 1 {
        '1'
    } else if d == 2 {
        '2'
    } else if d == 3 {
        '3'
    } else if d == 4 {
        '4'
    } else if d == 5 {
        '5'
    } else if d == 6 {
        '6'
    } else if d == 7 {
        '7'
    } else if d == 8 {
        '8'
    } else {
        '9'
    }
}

/// Appends the decimal digits of `n` to `s`.
fn push_decimal(s: &mut String, n: u64)
    ensures
        final(s)@ == old(s)@ + decimal(n as nat),
    decreases n,
{
    if n >= 10 {
        push_decimal(s, n / 10);
    }
    push_char(s, digit_of(n % 10));
    assert(s@ =~= old(s)@ + decimal(n as nat));
}

/// `n` written in decimal, with a leading `-` when it is negative, as `Display`
/// writes an `i64`.
pub(crate) fn decimal_text(n: i64) -> (r: String)
    ensures
        r@ == signed_decimal(n as int),
{
    let mut s = String::new();
    if n < 0 {
        push_char(&mut s, '-');
        let m: u64 = if n == i64::MIN {
            9_223_372_036_854_775_808
        } else {
            (-n) as u64
        };
        push_decimal(&mut s, m);
        assert(s@ =~= seq!['-'] + decimal((-n) as nat));
    } else {
        push_decimal(&mut s, n as u64);
        assert(s@ =~= decimal(n as nat));
    }
    s
}

} // verus!
