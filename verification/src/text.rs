//! Text as sequences of characters: the splitting, trimming, searching and
//! number formatting that the rest of the library states its contracts over.
use vstd::prelude::*;

verus! {

/// `String::push` appends one character to the end of the string.
pub assume_specification[ String::push ](s: &mut String, c: char)
    ensures
        final(s)@ == old(s)@.push(c),
;

/// `s` in quotation marks, with what could be misread written as escapes.
pub uninterp spec fn quoted(s: Seq<char>) -> Seq<char>;

/// `str`'s `Debug`, as `format!` writes it: what it writes is a function of the
/// string. Which characters it writes as escapes, and how, is not stated.
#[verifier::external_body]
pub(crate) fn quote(s: &str) -> (r: String)
    ensures
        r@ == quoted(s@),
{
    format!("{s:?}")
}

// ---------------------------------------------------------------------------
// What the functions below compute
// ---------------------------------------------------------------------------
/// Unicode's `White_Space` property.
pub open spec fn is_space(c: char) -> bool {
    let n = c as u32;
    ||| 0x9 <= n <= 0xd
    ||| n == 0x20
    ||| n == 0x85
    ||| n == 0xa0
    ||| n == 0x1680
    ||| 0x2000 <= n <= 0x200a
    ||| n == 0x2028
    ||| n == 0x2029
    ||| n == 0x202f
    ||| n == 0x205f
    ||| n == 0x3000
}

/// The strings of a sequence, each as its characters.
pub open spec fn views(v: Seq<String>) -> Seq<Seq<char>> {
    Seq::new(v.len(), |i: int| v[i]@)
}

/// `s` without its leading white space.
pub open spec fn trimmed_start(s: Seq<char>) -> Seq<char>
    decreases s.len(),
{
    if s.len() > 0 && is_space(s[0]) {
        trimmed_start(s.drop_first())
    } else {
        s
    }
}

/// `s` without its trailing white space.
pub open spec fn trimmed_end(s: Seq<char>) -> Seq<char>
    decreases s.len(),
{
    if s.len() > 0 && is_space(s.last()) {
        trimmed_end(s.drop_last())
    } else {
        s
    }
}

/// `s` without the white space around it.
pub open spec fn trimmed(s: Seq<char>) -> Seq<char> {
    trimmed_end(trimmed_start(s))
}

/// How many characters of `s` come before its first white space.
pub open spec fn word_len(s: Seq<char>) -> nat
    decreases s.len(),
{
    if s.len() == 0 || is_space(s[0]) {
        0
    } else {
        1 + word_len(s.drop_first())
    }
}

pub proof fn lemma_word_len_bound(s: Seq<char>)
    ensures
        word_len(s) <= s.len(),
        s.len() > 0 && !is_space(s[0]) ==> word_len(s) > 0,
    decreases s.len(),
{
    if s.len() > 0 && !is_space(s[0]) {
        lemma_word_len_bound(s.drop_first());
    }
}

pub proof fn lemma_trimmed_start_len(s: Seq<char>)
    ensures
        trimmed_start(s).len() <= s.len(),
        trimmed_start(s).len() > 0 ==> !is_space(trimmed_start(s)[0]),
    decreases s.len(),
{
    if s.len() > 0 && is_space(s[0]) {
        lemma_trimmed_start_len(s.drop_first());
    }
}

/// The words of `s`: its maximal runs of characters that are not white space.
pub open spec fn words(s: Seq<char>) -> Seq<Seq<char>>
    decreases s.len(),
{
    let t = trimmed_start(s);
    if t.len() == 0 {
        seq![]
    } else {
        let n = word_len(t);
        proof {
            lemma_trimmed_start_len(s);
            lemma_word_len_bound(t);
        }
        seq![t.take(n as int)] + words(t.skip(n as int))
    }
}

/// `parts` one after the other, with `sep` between each two.
pub open spec fn joined(parts: Seq<Seq<char>>, sep: Seq<char>) -> Seq<char>
    decreases parts.len(),
{
    if parts.len() == 0 {
        seq![]
    } else if parts.len() == 1 {
        parts[0]
    } else {
        joined(parts.drop_last(), sep) + sep + parts.last()
    }
}

/// `s` begins with `p`.
pub open spec fn begins(s: Seq<char>, p: Seq<char>) -> bool {
    p.len() <= s.len() && s.take(p.len() as int) == p
}

/// `s` ends in `p`.
pub open spec fn ends(s: Seq<char>, p: Seq<char>) -> bool {
    p.len() <= s.len() && s.skip(s.len() - p.len()) == p
}

/// Where `p` first occurs in `s`.
pub open spec fn position(s: Seq<char>, p: Seq<char>) -> Option<int>
    decreases s.len(),
{
    if begins(s, p) {
        Some(0)
    } else if s.len() == 0 {
        None
    } else {
        match position(s.drop_first(), p) {
            Some(i) => Some(i + 1),
            None => None,
        }
    }
}

/// `p` occurs in `s`.
pub open spec fn occurs(s: Seq<char>, p: Seq<char>) -> bool {
    position(s, p) is Some
}

/// `s` with the first occurrence of `p`, if there is one, replaced by `by`.
pub open spec fn replaced_first(s: Seq<char>, p: Seq<char>, by: Seq<char>) -> Seq<char> {
    match position(s, p) {
        Some(i) => s.take(i) + by + s.skip(i + p.len()),
        None => s,
    }
}

/// A line that a line feed ended: without the carriage return before it.
pub open spec fn without_cr(s: Seq<char>) -> Seq<char> {
    if s.len() > 0 && s.last() == '\r' {
        s.drop_last()
    } else {
        s
    }
}

pub proof fn lemma_position_bound(s: Seq<char>, p: Seq<char>)
    ensures
        position(s, p) matches Some(i) ==> 0 <= i && i + p.len() <= s.len()
            && s.subrange(i, i + p.len()) == p,
        position(s, p) matches Some(i) ==> forall|j: int|
            0 <= j < i ==> !begins(#[trigger] s.skip(j), p),
        position(s, p) is None ==> forall|j: int|
            0 <= j <= s.len() ==> !begins(#[trigger] s.skip(j), p),
    decreases s.len(),
{
    assert(s.skip(0) == s);
    if begins(s, p) {
        assert(s.subrange(0, p.len() as int) == s.take(p.len() as int));
    } else if s.len() > 0 {
        let t = s.drop_first();
        lemma_position_bound(t, p);
        assert forall|j: int| 1 <= j <= s.len() implies #[trigger] s.skip(j) == t.skip(j - 1) by {}
        if let Some(i) = position(t, p) {
            assert(s.subrange(i + 1, i + 1 + p.len()) == t.subrange(i, i + p.len()));
        }
    }
}

/// The lines of `s`, without their line ends (`\n` or `\r\n`). A final line
/// end does not start another line.
pub open spec fn lines(s: Seq<char>) -> Seq<Seq<char>>
    decreases s.len(),
{
    if s.len() == 0 {
        seq![]
    } else {
        match position(s, seq!['\n']) {
            Some(i) => {
                proof {
                    lemma_position_bound(s, seq!['\n']);
                }
                seq![without_cr(s.take(i))] + lines(s.skip(i + 1))
            },
            None => seq![s],
        }
    }
}

/// An ASCII capital as its small letter; any other character as it is.
pub open spec fn lower(c: char) -> char {
    if 'A' <= c && c <= 'Z' {
        (c as u32 + 32) as char
    } else {
        c
    }
}

/// Equal but for the case of ASCII letters.
pub open spec fn same_ignoring_case(a: Seq<char>, b: Seq<char>) -> bool {
    a.len() == b.len() && forall|i: int| 0 <= i < a.len() ==> lower(#[trigger] a[i]) == lower(b[i])
}

/// The order of strings: by the first character in which they differ, a
/// prefix before what it is a prefix of.
pub open spec fn comes_before(a: Seq<char>, b: Seq<char>) -> bool
    decreases a.len(),
{
    if b.len() == 0 {
        false
    } else if a.len() == 0 {
        true
    } else if a[0] == b[0] {
        comes_before(a.drop_first(), b.drop_first())
    } else {
        a[0] < b[0]
    }
}

/// The decimal digit for `d`.
pub open spec fn digit(d: nat) -> char {
    (48 + d) as char
}

/// `n` in decimal.
pub open spec fn decimal(n: nat) -> Seq<char>
    decreases n,
{
    if n < 10 {
        seq![digit(n)]
    } else {
        decimal(n / 10).push(digit(n % 10))
    }
}

/// `n` in decimal, with a minus sign where it is negative.
pub open spec fn decimal_signed(n: int) -> Seq<char> {
    if n < 0 {
        seq!['-'] + decimal((-n) as nat)
    } else {
        decimal(n as nat)
    }
}

/// What `c` stands for as a digit, letters counting on from ten.
pub open spec fn digit_value(c: char) -> Option<nat> {
    if '0' <= c && c <= '9' {
        Some((c as u32 - 48) as nat)
    } else if 'a' <= c && c <= 'z' {
        Some((c as u32 - 87) as nat)
    } else if 'A' <= c && c <= 'Z' {
        Some((c as u32 - 55) as nat)
    } else {
        None
    }
}

/// `c` is a digit in base `radix`.
pub open spec fn is_digit(c: char, radix: nat) -> bool {
    digit_value(c) matches Some(d) && d < radix
}

/// The number that the digits `s` write in base `radix`.
pub open spec fn digits_value(s: Seq<char>, radix: nat) -> nat
    decreases s.len(),
{
    if s.len() == 0 {
        0
    } else {
        digits_value(s.drop_last(), radix) * radix + digit_value(s.last()).unwrap_or(0)
    }
}

/// `s` without one leading plus sign.
pub open spec fn without_plus(s: Seq<char>) -> Seq<char> {
    if s.len() > 0 && s[0] == '+' {
        s.drop_first()
    } else {
        s
    }
}

/// `s` as an unsigned number in base `radix` that is no larger than `max`:
/// digits, at least one, after an optional plus sign.
pub open spec fn number(s: Seq<char>, radix: nat, max: nat) -> Option<nat> {
    let d = without_plus(s);
    if d.len() > 0 && (forall|i: int| 0 <= i < d.len() ==> is_digit(#[trigger] d[i], radix))
        && digits_value(d, radix) <= max {
        Some(digits_value(d, radix))
    } else {
        None
    }
}

// ---------------------------------------------------------------------------
// Characters and strings
// ---------------------------------------------------------------------------
/// The characters of `s`.
pub fn chars(s: &str) -> (v: Vec<char>)
    ensures
        v@ == s@,
{
    let mut v: Vec<char> = Vec::new();
    for c in it: s.chars()
        invariant
            it.seq() == s@,
            v@ == s@.take(it.index() as int),
    {
        v.push(c);
        assert(s@.take(it.index() + 1) == s@.take(it.index() as int).push(c));
    }
    assert(s@.take(s@.len() as int) == s@);
    v
}

/// The characters `from..to` of `v` as a string.
pub fn string_of(v: &Vec<char>, from: usize, to: usize) -> (s: String)
    requires
        from <= to <= v@.len(),
    ensures
        s@ == v@.subrange(from as int, to as int),
{
    let mut s = String::new();
    let mut i: usize = from;
    while i < to
        invariant
            from <= i <= to <= v@.len(),
            s@ == v@.subrange(from as int, i as int),
        decreases to - i,
    {
        s.push(v[i]);
        assert(v@.subrange(from as int, i + 1) == v@.subrange(from as int, i as int).push(
            v@[i as int],
        ));
        i += 1;
    }
    s
}

/// Whether the two strings are the same.
pub fn same(a: &str, b: &str) -> (r: bool)
    ensures
        r == (a@ == b@),
{
    let x = chars(a);
    let y = chars(b);
    if x.len() != y.len() {
        return false;
    }
    let mut i: usize = 0;
    while i < x.len()
        invariant
            i <= x@.len() == y@.len(),
            forall|j: int| 0 <= j < i ==> x@[j] == y@[j],
            x@ == a@,
            y@ == b@,
        decreases x@.len() - i,
    {
        if x[i] != y[i] {
            return false;
        }
        i += 1;
    }
    assert(x@ == y@);
    true
}

/// `a` and `b`, one after the other.
pub fn concat(a: &str, b: &str) -> (s: String)
    ensures
        s@ == a@ + b@,
{
    let mut s = a.to_owned();
    s.append(b);
    s
}

/// Whether `c` is white space.
pub fn is_whitespace(c: char) -> (r: bool)
    ensures
        r == is_space(c),
{
    let n: u32 = c as u32;
    (0x9 <= n && n <= 0xd) || n == 0x20 || n == 0x85 || n == 0xa0 || n == 0x1680 || (0x2000 <= n
        && n <= 0x200a) || n == 0x2028 || n == 0x2029 || n == 0x202f || n == 0x205f || n == 0x3000
}

// ---------------------------------------------------------------------------
// Trimming
// ---------------------------------------------------------------------------
/// Where `v` begins once its leading white space is gone.
fn start_of(v: &Vec<char>) -> (i: usize)
    ensures
        i <= v@.len(),
        v@.skip(i as int) == trimmed_start(v@),
{
    let mut i: usize = 0;
    assert(v@.skip(0) == v@);
    while i < v.len() && is_whitespace(v[i])
        invariant
            i <= v@.len(),
            trimmed_start(v@.skip(i as int)) == trimmed_start(v@),
        decreases v@.len() - i,
    {
        assert(v@.skip(i as int).drop_first() == v@.skip(i + 1));
        i += 1;
    }
    i
}

/// Where `v` from `from` on ends once its trailing white space is gone.
fn end_of(v: &Vec<char>, from: usize) -> (i: usize)
    requires
        from <= v@.len(),
    ensures
        from <= i <= v@.len(),
        v@.subrange(from as int, i as int) == trimmed_end(v@.skip(from as int)),
{
    let mut i: usize = v.len();
    assert(v@.subrange(from as int, i as int) == v@.skip(from as int));
    while i > from && is_whitespace(v[i - 1])
        invariant
            from <= i <= v@.len(),
            trimmed_end(v@.subrange(from as int, i as int)) == trimmed_end(v@.skip(from as int)),
        decreases i,
    {
        assert(v@.subrange(from as int, i as int).drop_last() == v@.subrange(from as int, i - 1));
        i -= 1;
    }
    i
}

/// `s` without the white space around it.
pub fn trim(s: &str) -> (r: String)
    ensures
        r@ == trimmed(s@),
{
    let v = chars(s);
    let from = start_of(&v);
    let to = end_of(&v, from);
    string_of(&v, from, to)
}

/// `s` without its leading white space.
pub fn trim_start(s: &str) -> (r: String)
    ensures
        r@ == trimmed_start(s@),
{
    let v = chars(s);
    let from = start_of(&v);
    assert(v@.subrange(from as int, v@.len() as int) == v@.skip(from as int));
    string_of(&v, from, v.len())
}

/// `s` without its trailing white space.
pub fn trim_end(s: &str) -> (r: String)
    ensures
        r@ == trimmed_end(s@),
{
    let v = chars(s);
    let to = end_of(&v, 0);
    assert(v@.skip(0) == v@);
    string_of(&v, 0, to)
}

// ---------------------------------------------------------------------------
// Words and lines
// ---------------------------------------------------------------------------
proof fn lemma_words_after_space(s: Seq<char>)
    requires
        s.len() > 0,
        is_space(s[0]),
    ensures
        words(s) == words(s.drop_first()),
{
}

proof fn lemma_words_of_word(s: Seq<char>, n: int)
    requires
        0 < n <= s.len(),
        forall|i: int| 0 <= i < n ==> !is_space(#[trigger] s[i]),
        n == s.len() || is_space(s[n]),
    ensures
        words(s) == seq![s.take(n)] + words(s.skip(n)),
{
    lemma_word_len_is(s, n);
}

proof fn lemma_word_len_is(s: Seq<char>, n: int)
    requires
        0 <= n <= s.len(),
        forall|i: int| 0 <= i < n ==> !is_space(#[trigger] s[i]),
        n == s.len() || is_space(s[n]),
    ensures
        word_len(s) == n,
    decreases n,
{
    if n > 0 {
        assert(!is_space(s[0]));
        let t = s.drop_first();
        assert forall|i: int| 0 <= i < n - 1 implies !is_space(#[trigger] t[i]) by {
            assert(t[i] == s[i + 1]);
        }
        lemma_word_len_is(t, n - 1);
    }
}

/// The words of `s`.
pub fn split_words(s: &str) -> (w: Vec<String>)
    ensures
        views(w@) == words(s@),
{
    let v = chars(s);
    let mut w: Vec<String> = Vec::new();
    let mut i: usize = 0;
    assert(v@.skip(0) == v@);
    assert(views(w@) + words(v@) == words(v@));
    while i < v.len()
        invariant
            i <= v@.len(),
            views(w@) + words(v@.skip(i as int)) == words(v@),
        decreases v@.len() - i,
    {
        if is_whitespace(v[i]) {
            proof {
                lemma_words_after_space(v@.skip(i as int));
                assert(v@.skip(i as int).drop_first() == v@.skip(i + 1));
            }
            i += 1;
        } else {
            let mut j: usize = i + 1;
            while j < v.len() && !is_whitespace(v[j])
                invariant
                    i < j <= v@.len(),
                    forall|k: int| i <= k < j ==> !is_space(#[trigger] v@[k]),
                decreases v@.len() - j,
            {
                j += 1;
            }
            let ghost before = views(w@);
            w.push(string_of(&v, i, j));
            proof {
                let rest = v@.skip(i as int);
                lemma_words_of_word(rest, j - i);
                assert(rest.take(j - i) == v@.subrange(i as int, j as int));
                assert(rest.skip(j - i) == v@.skip(j as int));
                assert(views(w@) == before.push(v@.subrange(i as int, j as int)));
                assert(before + (seq![rest.take(j - i)] + words(v@.skip(j as int))) == views(w@)
                    + words(v@.skip(j as int)));
            }
            i = j;
        }
    }
    assert(v@.skip(i as int) == Seq::<char>::empty());
    assert(views(w@) + words(v@.skip(i as int)) == views(w@));
    w
}

/// `parts`, from the `from`-th on, one after the other with `sep` between
/// each two.
pub fn join_from(parts: &Vec<String>, from: usize, sep: &str) -> (s: String)
    requires
        from <= parts@.len(),
    ensures
        s@ == joined(views(parts@).skip(from as int), sep@),
{
    let mut s = String::new();
    let ghost all = views(parts@).skip(from as int);
    let mut i: usize = from;
    while i < parts.len()
        invariant
            from <= i <= parts@.len(),
            all == views(parts@).skip(from as int),
            s@ == joined(all.take(i - from), sep@),
        decreases parts@.len() - i,
    {
        proof {
            let next = all.take(i + 1 - from);
            assert(next.drop_last() == all.take(i - from));
            assert(next.last() == parts@[i as int]@);
            if i == from {
                assert(Seq::<char>::empty() + parts@[i as int]@ == parts@[i as int]@);
            }
        }
        if i > from {
            s.append(sep);
        }
        s.append(parts[i].as_str());
        i += 1;
    }
    assert(all.take(parts@.len() - from) == all);
    s
}

/// `parts` one after the other with `sep` between each two.
pub fn join(parts: &Vec<String>, sep: &str) -> (s: String)
    ensures
        s@ == joined(views(parts@), sep@),
{
    assert(views(parts@).skip(0) == views(parts@));
    join_from(parts, 0, sep)
}

/// Where `p` occurs in `v`, not before `from`.
pub fn find_in(v: &Vec<char>, from: usize, p: &Vec<char>) -> (r: Option<usize>)
    requires
        from <= v@.len(),
    ensures
        match r {
            Some(i) => from <= i && i + p@.len() <= v@.len() && position(
                v@.skip(from as int),
                p@,
            ) == Some(i - from),
            None => position(v@.skip(from as int), p@) is None,
        },
{
    let ghost s = v@.skip(from as int);
    let mut i: usize = from;
    assert(s.skip(0) == s);
    loop
        invariant
            from <= i <= v@.len(),
            s == v@.skip(from as int),
            position(s, p@) == match position(s.skip(i - from), p@) {
                Some(k) => Some(k + (i - from)),
                None => None::<int>,
            },
        decreases v@.len() - i,
    {
        if begins_at(v, i, p) {
            assert(s.skip(i - from) == v@.skip(i as int));
            return Some(i);
        }
        assert(s.skip(i - from) == v@.skip(i as int));
        if i == v.len() {
            return None;
        }
        assert(s.skip(i - from).drop_first() == s.skip(i + 1 - from));
        i += 1;
    }
}

/// Whether `p` occurs in `v` at `at`.
pub fn begins_at(v: &Vec<char>, at: usize, p: &Vec<char>) -> (r: bool)
    requires
        at <= v@.len(),
    ensures
        r == begins(v@.skip(at as int), p@),
{
    let n: usize = v.len();
    if p.len() > n - at {
        return false;
    }
    let mut k: usize = 0;
    while k < p.len()
        invariant
            k <= p@.len(),
            at + p@.len() <= v@.len() == n,
            forall|j: int| 0 <= j < k ==> v@[at + j] == #[trigger] p@[j],
        decreases p@.len() - k,
    {
        if v[at + k] != p[k] {
            assert(v@.skip(at as int).take(p@.len() as int)[k as int] != p@[k as int]);
            return false;
        }
        k += 1;
    }
    assert(v@.skip(at as int).take(p@.len() as int) == p@);
    true
}

/// Whether `s` begins with `p`.
pub fn starts_with(s: &str, p: &str) -> (r: bool)
    ensures
        r == begins(s@, p@),
{
    let v = chars(s);
    assert(v@.skip(0) == v@);
    begins_at(&v, 0, &chars(p))
}

/// Whether `s` ends in `p`.
pub fn ends_with(s: &str, p: &str) -> (r: bool)
    ensures
        r == ends(s@, p@),
{
    let v = chars(s);
    let q = chars(p);
    if q.len() > v.len() {
        return false;
    }
    let at: usize = v.len() - q.len();
    assert(v@.skip(at as int).take(q@.len() as int) == v@.skip(at as int));
    begins_at(&v, at, &q)
}

/// Whether `p` occurs in `s`.
pub fn contains(s: &str, p: &str) -> (r: bool)
    ensures
        r == occurs(s@, p@),
{
    let v = chars(s);
    assert(v@.skip(0) == v@);
    find_in(&v, 0, &chars(p)).is_some()
}

/// `s` with the first `p` in it, if there is one, replaced by `by`.
pub fn replace_first(s: &str, p: &str, by: &str) -> (r: String)
    ensures
        r@ == replaced_first(s@, p@, by@),
{
    let v = chars(s);
    let q = chars(p);
    assert(v@.skip(0) == v@);
    match find_in(&v, 0, &q) {
        Some(i) => {
            let n: usize = v.len();
            let mut r = string_of(&v, 0, i);
            r.append(by);
            let rest = string_of(&v, i + q.len(), n);
            r.append(rest.as_str());
            assert(v@.subrange(0, i as int) == v@.take(i as int));
            assert(v@.subrange(i + q@.len(), v@.len() as int) == v@.skip(i + q@.len()));
            r
        },
        None => s.to_owned(),
    }
}

/// The lines of `s`.
pub fn split_lines(s: &str) -> (w: Vec<String>)
    ensures
        views(w@) == lines(s@),
{
    let v = chars(s);
    let mut feed: Vec<char> = Vec::new();
    feed.push('\n');
    let mut w: Vec<String> = Vec::new();
    let mut i: usize = 0;
    assert(feed@ == seq!['\n']);
    assert(v@.skip(0) == v@);
    assert(views(w@) + lines(v@) == lines(v@));
    while i < v.len()
        invariant
            i <= v@.len(),
            feed@ == seq!['\n'],
            views(w@) + lines(v@.skip(i as int)) == lines(v@),
        decreases v@.len() - i,
    {
        let ghost before = views(w@);
        let ghost rest = v@.skip(i as int);
        match find_in(&v, i, &feed) {
            Some(j) => {
                let end: usize = if j > i && v[j - 1] == '\r' {
                    j - 1
                } else {
                    j
                };
                w.push(string_of(&v, i, end));
                proof {
                    assert(rest.take(j - i) == v@.subrange(i as int, j as int));
                    assert(without_cr(rest.take(j - i)) == v@.subrange(i as int, end as int));
                    assert(rest.skip(j - i + 1) == v@.skip(j + 1));
                    assert(views(w@) == before.push(v@.subrange(i as int, end as int)));
                    assert(before + lines(rest) == views(w@) + lines(v@.skip(j + 1)));
                }
                i = j + 1;
            },
            None => {
                w.push(string_of(&v, i, v.len()));
                proof {
                    assert(rest == v@.subrange(i as int, v@.len() as int));
                    assert(views(w@) == before.push(rest));
                    assert(v@.skip(v@.len() as int) == Seq::<char>::empty());
                    assert(before + lines(rest) == views(w@) + lines(v@.skip(v@.len() as int)));
                }
                i = v.len();
            },
        }
    }
    assert(v@.skip(i as int) == Seq::<char>::empty());
    assert(views(w@) + lines(v@.skip(i as int)) == views(w@));
    w
}

// ---------------------------------------------------------------------------
// Comparing
// ---------------------------------------------------------------------------
fn to_lower(c: char) -> (r: char)
    ensures
        r == lower(c),
{
    if 'A' <= c && c <= 'Z' {
        ((c as u8) + 32) as char
    } else {
        c
    }
}

/// Whether two lists hold the same strings.
pub fn same_list(a: &Vec<String>, b: &Vec<String>) -> (r: bool)
    ensures
        r == (views(a@) == views(b@)),
{
    let ghost x = views(a@);
    let ghost y = views(b@);
    if a.len() != b.len() {
        assert(x.len() != y.len());
        return false;
    }
    let mut i: usize = 0;
    while i < a.len()
        invariant
            i <= a@.len() == b@.len(),
            x == views(a@),
            y == views(b@),
            forall|j: int| 0 <= j < i ==> #[trigger] x[j] == y[j],
        decreases a@.len() - i,
    {
        if a[i] != b[i] {
            assert(x[i as int] != y[i as int]);
            return false;
        }
        i += 1;
    }
    assert(x =~= y);
    true
}

/// Whether the strings are equal but for the case of ASCII letters.
pub fn eq_ignore_case(a: &str, b: &str) -> (r: bool)
    ensures
        r == same_ignoring_case(a@, b@),
{
    let x = chars(a);
    let y = chars(b);
    if x.len() != y.len() {
        return false;
    }
    let mut i: usize = 0;
    while i < x.len()
        invariant
            i <= x@.len() == y@.len(),
            forall|j: int| 0 <= j < i ==> lower(#[trigger] x@[j]) == lower(y@[j]),
            x@ == a@,
            y@ == b@,
        decreases x@.len() - i,
    {
        if to_lower(x[i]) != to_lower(y[i]) {
            return false;
        }
        i += 1;
    }
    true
}

/// Whether `a` comes before `b`.
pub fn is_before(a: &str, b: &str) -> (r: bool)
    ensures
        r == comes_before(a@, b@),
{
    let x = chars(a);
    let y = chars(b);
    let mut i: usize = 0;
    assert(x@.skip(0) == x@);
    assert(y@.skip(0) == y@);
    while i < x.len() && i < y.len() && x[i] == y[i]
        invariant
            i <= x@.len(),
            i <= y@.len(),
            comes_before(x@.skip(i as int), y@.skip(i as int)) == comes_before(x@, y@),
        decreases x@.len() - i,
    {
        assert(x@.skip(i as int).drop_first() == x@.skip(i + 1));
        assert(y@.skip(i as int).drop_first() == y@.skip(i + 1));
        i += 1;
    }
    if i >= y.len() {
        false
    } else if i >= x.len() {
        true
    } else {
        x[i] < y[i]
    }
}

/// No string comes before itself.
pub proof fn lemma_before_irreflexive(a: Seq<char>)
    ensures
        !comes_before(a, a),
    decreases a.len(),
{
    if a.len() > 0 {
        lemma_before_irreflexive(a.drop_first());
    }
}

/// Of two strings, one comes before the other or they are equal.
pub proof fn lemma_before_total(a: Seq<char>, b: Seq<char>)
    ensures
        comes_before(a, b) || comes_before(b, a) || a == b,
    decreases a.len(),
{
    if a.len() > 0 && b.len() > 0 && a[0] == b[0] {
        lemma_before_total(a.drop_first(), b.drop_first());
        assert(a == seq![a[0]] + a.drop_first());
        assert(b == seq![b[0]] + b.drop_first());
    } else if a.len() == 0 && b.len() == 0 {
        assert(a == b);
    }
}

/// The order of strings is transitive.
pub proof fn lemma_before_transitive(a: Seq<char>, b: Seq<char>, c: Seq<char>)
    requires
        comes_before(a, b),
        comes_before(b, c),
    ensures
        comes_before(a, c),
    decreases a.len(),
{
    if a.len() > 0 && a[0] == b[0] && b[0] == c[0] {
        lemma_before_transitive(a.drop_first(), b.drop_first(), c.drop_first());
    }
}

// ---------------------------------------------------------------------------
// Numbers
// ---------------------------------------------------------------------------
/// Append `n` in decimal.
pub fn push_decimal(s: &mut String, n: u64)
    ensures
        final(s)@ == old(s)@ + decimal(n as nat),
    decreases n,
{
    if n >= 10 {
        push_decimal(s, n / 10);
    }
    s.push((48 + (n % 10) as u8) as char);
}

/// `n` in decimal.
pub fn decimal_of(n: u64) -> (s: String)
    ensures
        s@ == decimal(n as nat),
{
    let mut s = String::new();
    push_decimal(&mut s, n);
    assert(s@ == decimal(n as nat));
    s
}

/// `n` in decimal, with a minus sign where it is negative.
pub fn decimal_of_signed(n: i64) -> (s: String)
    ensures
        s@ == decimal_signed(n as int),
{
    let mut s = String::new();
    if n < 0 {
        s.push('-');
        assert(s@ == seq!['-']);
        push_decimal(&mut s, (-(n + 1)) as u64 + 1);
    } else {
        push_decimal(&mut s, n as u64);
        assert(s@ == decimal(n as nat));
    }
    s
}

fn digit_of(c: char) -> (r: Option<u64>)
    ensures
        match r {
            Some(d) => digit_value(c) == Some(d as nat) && d < 36,
            None => digit_value(c) is None,
        },
{
    if '0' <= c && c <= '9' {
        Some((c as u32 - 48) as u64)
    } else if 'a' <= c && c <= 'z' {
        Some((c as u32 - 87) as u64)
    } else if 'A' <= c && c <= 'Z' {
        Some((c as u32 - 55) as u64)
    } else {
        None
    }
}

proof fn lemma_digits_value_grows(s: Seq<char>, i: int, radix: nat)
    requires
        0 <= i <= s.len(),
        radix >= 1,
    ensures
        digits_value(s.take(i), radix) <= digits_value(s, radix),
    decreases s.len() - i,
{
    if i == s.len() {
        assert(s.take(i) == s);
    } else {
        lemma_digits_value_grows(s, i + 1, radix);
        let t = s.take(i + 1);
        assert(t.drop_last() == s.take(i));
        let a = digits_value(s.take(i), radix);
        assert(a <= a * radix) by (nonlinear_arith)
            requires
                radix >= 1,
        ;
    }
}

/// `s` as an unsigned number in base `radix` no larger than `max`.
pub fn parse_number(s: &str, radix: u64, max: u64) -> (r: Option<u64>)
    requires
        2 <= radix <= 36,
    ensures
        match r {
            Some(n) => number(s@, radix as nat, max as nat) == Some(n as nat),
            None => number(s@, radix as nat, max as nat) is None,
        },
{
    let v = chars(s);
    let from: usize = if v.len() > 0 && v[0] == '+' {
        1
    } else {
        0
    };
    let ghost d = without_plus(v@);
    assert(d == v@.skip(from as int));
    if from == v.len() {
        return None;
    }
    let mut n: u64 = 0;
    let mut i: usize = from;
    while i < v.len()
        invariant
            from <= i <= v@.len(),
            d == v@.skip(from as int),
            d == without_plus(s@),
            2 <= radix <= 36,
            n <= max,
            n == digits_value(d.take(i - from), radix as nat),
            forall|k: int| 0 <= k < i - from ==> is_digit(#[trigger] d[k], radix as nat),
        decreases v@.len() - i,
    {
        let ghost next = d.take(i - from + 1);
        proof {
            assert(next.drop_last() == d.take(i - from));
            assert(next.last() == v@[i as int] == d[i - from]);
        }
        match digit_of(v[i]) {
            Some(x) if x < radix => {
                assert(n * radix <= u64::MAX * 36) by (nonlinear_arith)
                    requires
                        n <= u64::MAX,
                        0 <= radix <= 36,
                ;
                let wide: u128 = n as u128 * radix as u128 + x as u128;
                assert(wide == digits_value(next, radix as nat));
                if wide > max as u128 {
                    proof {
                        lemma_digits_value_grows(d, i - from + 1, radix as nat);
                    }
                    return None;
                }
                n = wide as u64;
            },
            _ => {
                assert(!is_digit(d[i - from], radix as nat));
                return None;
            },
        }
        i += 1;
    }
    assert(d.take(d.len() as int) == d);
    Some(n)
}

// ---------------------------------------------------------------------------
// What holds of every text
// ---------------------------------------------------------------------------
/// White space is tabs, line ends and the blanks of Unicode, and nothing else.
pub proof fn law_white_space(c: char)
    ensures
        is_space(c) <==> "\t\n\u{b}\u{c}\r \u{85}\u{a0}\u{1680}\u{2000}\u{2001}\u{2002}\u{2003}\u{2004}\u{2005}\u{2006}\u{2007}\u{2008}\u{2009}\u{200a}\u{2028}\u{2029}\u{202f}\u{205f}\u{3000}"@.contains(
            c,
        ),
{
    reveal_strlit(
        "\t\n\u{b}\u{c}\r \u{85}\u{a0}\u{1680}\u{2000}\u{2001}\u{2002}\u{2003}\u{2004}\u{2005}\u{2006}\u{2007}\u{2008}\u{2009}\u{200a}\u{2028}\u{2029}\u{202f}\u{205f}\u{3000}",
    );
    let s = "\t\n\u{b}\u{c}\r \u{85}\u{a0}\u{1680}\u{2000}\u{2001}\u{2002}\u{2003}\u{2004}\u{2005}\u{2006}\u{2007}\u{2008}\u{2009}\u{200a}\u{2028}\u{2029}\u{202f}\u{205f}\u{3000}"@;
    let n = c as u32;
    assert(s.len() == 25);
    if 0x9 <= n <= 0xd {
        assert(s[n - 0x9] == c);
    } else if 0x2000 <= n <= 0x200a {
        assert(s[n - 0x2000 + 9] == c);
    } else if is_space(c) {
        assert(s[5] == c || s[6] == c || s[7] == c || s[8] == c || s[20] == c || s[21] == c || s[22]
            == c || s[23] == c || s[24] == c);
    }
}

/// All of `s` is white space.
pub open spec fn is_blank(s: Seq<char>) -> bool {
    forall|i: int| 0 <= i < s.len() ==> is_space(#[trigger] s[i])
}

/// Trimmed at its start, a text is its end, from the first character on that is
/// not white space; what is gone is all white space.
pub proof fn law_trimmed_start(s: Seq<char>)
    ensures
        ({
            let t = trimmed_start(s);
            let n = s.len() - t.len();
            &&& 0 <= n && t == s.skip(n) && is_blank(s.take(n))
            &&& t.len() > 0 ==> !is_space(t[0])
        }),
    decreases s.len(),
{
    if s.len() > 0 && is_space(s[0]) {
        let rest = s.drop_first();
        law_trimmed_start(rest);
        let t = trimmed_start(rest);
        let n = s.len() - t.len();
        assert(t =~= s.skip(n));
        assert forall|i: int| 0 <= i < n implies is_space(#[trigger] s.take(n)[i]) by {
            if i > 0 {
                assert(rest.take(n - 1)[i - 1] == s[i]);
            }
        }
    } else {
        assert(s.skip(0) =~= s);
    }
}

/// Trimmed at its end, a text is its beginning, up to the last character that
/// is not white space; what is gone is all white space.
pub proof fn law_trimmed_end(s: Seq<char>)
    ensures
        ({
            let t = trimmed_end(s);
            &&& t.len() <= s.len() && t == s.take(t.len() as int) && is_blank(
                s.skip(t.len() as int),
            )
            &&& t.len() > 0 ==> !is_space(t.last())
        }),
    decreases s.len(),
{
    if s.len() > 0 && is_space(s.last()) {
        let front = s.drop_last();
        law_trimmed_end(front);
        let t = trimmed_end(front);
        let n = t.len() as int;
        assert(t =~= s.take(n));
        assert forall|i: int| 0 <= i < s.len() - n implies is_space(#[trigger] s.skip(n)[i]) by {
            if i < front.len() - n {
                assert(front.skip(n)[i] == s[n + i]);
            }
        }
    } else {
        assert(s.take(s.len() as int) =~= s);
    }
}

/// Trimmed, a text is itself less white space at both ends, and has none there;
/// to trim it again changes nothing, and what is put around it does not matter.
pub proof fn law_trimmed(s: Seq<char>)
    ensures
        exists|a: Seq<char>, b: Seq<char>|
            is_blank(a) && is_blank(b) && s == #[trigger] (a + trimmed(s) + b),
        trimmed(s).len() > 0 ==> !is_space(trimmed(s)[0]) && !is_space(trimmed(s).last()),
        trimmed(trimmed(s)) == trimmed(s),
{
    let t = trimmed_start(s);
    law_trimmed_start(s);
    law_trimmed_end(t);
    let u = trimmed(s);
    let a = s.take(s.len() - t.len());
    let b = t.skip(u.len() as int);
    assert(s =~= a + u + b);
    if u.len() > 0 {
        assert(u[0] == t[0]);
    }
    assert(trimmed_start(u) == u);
    assert(trimmed_end(u) == u);
}

/// The words of a text are those before a white space and then those behind
/// it; what holds no white space is one word, and nothing has none.
pub proof fn law_words(a: Seq<char>, space: char, b: Seq<char>)
    requires
        is_space(space),
    ensures
        words(a + seq![space] + b) == words(a) + words(b),
        a.len() > 0 && (forall|i: int| 0 <= i < a.len() ==> !is_space(#[trigger] a[i])) ==> words(a)
            == seq![a],
        words(Seq::empty()) == Seq::<Seq<char>>::empty(),
    decreases a.len(),
{
    let s = a + seq![space] + b;
    assert(trimmed_start(Seq::<char>::empty()) == Seq::<char>::empty());
    assert(words(Seq::<char>::empty()) == Seq::<Seq<char>>::empty());
    if a.len() == 0 {
        assert(s.drop_first() =~= b);
        lemma_words_after_space(s);
        assert(a =~= Seq::<char>::empty());
        assert(words(a) + words(b) =~= words(b));
    } else if is_space(a[0]) {
        assert(s[0] == a[0]);
        assert(s.drop_first() =~= a.drop_first() + seq![space] + b);
        lemma_words_after_space(s);
        lemma_words_after_space(a);
        law_words(a.drop_first(), space, b);
        assert(is_space(a[0]));
    } else {
        let n = word_len(a) as int;
        lemma_word_len_bound(a);
        lemma_run(a);
        assert forall|i: int| 0 <= i < n implies !is_space(#[trigger] s[i]) by {
            assert(s[i] == a[i]);
        }
        if n == a.len() {
            assert(s[n] == space);
        } else {
            assert(s[n] == a[n]);
        }
        lemma_words_of_word(s, n);
        lemma_words_of_word(a, n);
        assert(s.take(n) =~= a.take(n));
        assert(s.skip(n) =~= a.skip(n) + seq![space] + b);
        law_words(a.skip(n), space, b);
        assert(words(s) =~= words(a) + words(b));
        if forall|i: int| 0 <= i < a.len() ==> !is_space(#[trigger] a[i]) {
            if n < a.len() {
                assert(is_space(a[n]));
            }
            assert(a.take(n) =~= a);
            assert(a.skip(n) =~= Seq::<char>::empty());
            assert(words(a) =~= seq![a]);
        }
    }
}

proof fn lemma_run(s: Seq<char>)
    ensures
        word_len(s) <= s.len(),
        forall|i: int| 0 <= i < word_len(s) ==> !is_space(#[trigger] s[i]),
        word_len(s) < s.len() ==> is_space(s[word_len(s) as int]),
    decreases s.len(),
{
    if s.len() > 0 && !is_space(s[0]) {
        let t = s.drop_first();
        lemma_run(t);
        assert forall|i: int| 0 <= i < word_len(s) implies !is_space(#[trigger] s[i]) by {
            if i > 0 {
                assert(t[i - 1] == s[i]);
            }
        }
    }
}

/// Joined, two lists are the one and the other with a separator between them;
/// a single part is itself, and no part is nothing.
pub proof fn law_joined(a: Seq<Seq<char>>, b: Seq<Seq<char>>, x: Seq<char>, sep: Seq<char>)
    ensures
        a.len() > 0 && b.len() > 0 ==> joined(a + b, sep) == joined(a, sep) + sep + joined(b, sep),
        joined(seq![x], sep) == x,
        joined(Seq::empty(), sep) == Seq::<char>::empty(),
    decreases b.len(),
{
    if a.len() > 0 && b.len() > 0 {
        assert((a + b).drop_last() =~= a + b.drop_last());
        assert((a + b).last() == b.last());
        if b.len() == 1 {
            assert(b.drop_last() =~= Seq::<Seq<char>>::empty());
            assert(a + b.drop_last() =~= a);
        } else {
            law_joined(a, b.drop_last(), x, sep);
            assert(joined(a + b, sep) =~= joined(a, sep) + sep + joined(b, sep));
        }
    }
}

/// Where a character first occurs.
pub proof fn lemma_position_of(a: Seq<char>, c: char, b: Seq<char>)
    requires
        !a.contains(c),
    ensures
        position(a + seq![c] + b, seq![c]) == Some(a.len() as int),
    decreases a.len(),
{
    let s = a + seq![c] + b;
    if a.len() == 0 {
        assert(s.take(1) =~= seq![c]);
    } else {
        assert(s[0] == a[0]);
        assert(a.contains(a[0]));
        assert(s.take(1)[0] != c);
        assert(s.drop_first() =~= a.drop_first() + seq![c] + b);
        assert forall|d: char| a.drop_first().contains(d) implies a.contains(d) by {
            let i = choose|i: int| 0 <= i < a.drop_first().len() && a.drop_first()[i] == d;
            assert(a[i + 1] == d);
        }
        lemma_position_of(a.drop_first(), c, b);
    }
}

/// What does not contain a character has no position of it.
pub proof fn lemma_no_position_of(a: Seq<char>, c: char)
    requires
        !a.contains(c),
    ensures
        position(a, seq![c]) is None,
{
    lemma_position_bound(a, seq![c]);
    if let Some(i) = position(a, seq![c]) {
        assert(a.subrange(i, i + 1)[0] == c);
        assert(a[i] == c);
    }
}

/// A line ends at its line feed, less a carriage return right before it, and
/// the next begins behind it; what holds no line feed is one line, and nothing
/// has none.
pub proof fn law_lines(a: Seq<char>, b: Seq<char>)
    requires
        !a.contains('\n'),
    ensures
        a.len() > 0 ==> lines(a) == seq![a],
        lines(Seq::empty()) == Seq::<Seq<char>>::empty(),
        lines(a + seq!['\n'] + b) == seq![
            if a.len() > 0 && a.last() == '\r' {
                a.drop_last()
            } else {
                a
            },
        ] + lines(b),
{
    lemma_position_of(a, '\n', b);
    lemma_no_position_of(a, '\n');
    let s = a + seq!['\n'] + b;
    assert(s.take(a.len() as int) =~= a);
    assert(s.skip(a.len() as int + 1) =~= b);
}

/// A text begins with what it is the continuation of, and ends in what it
/// continues.
pub proof fn law_begins_and_ends(s: Seq<char>, p: Seq<char>, t: Seq<char>)
    ensures
        begins(p + t, p),
        ends(t + p, p),
        begins(s, p) ==> s == p + s.skip(p.len() as int),
        ends(s, p) ==> s == s.take(s.len() - p.len()) + p,
{
    assert((p + t).take(p.len() as int) =~= p);
    assert((t + p).skip(t.len() as int) =~= p);
    if begins(s, p) {
        assert(s =~= p + s.skip(p.len() as int));
    }
    if ends(s, p) {
        assert(s =~= s.take(s.len() - p.len()) + p);
    }
}

/// The first occurrence is replaced, and everything around it stays; a text
/// without one stays as it is.
pub proof fn law_replaced_first(a: Seq<char>, p: Seq<char>, b: Seq<char>, by: Seq<char>)
    ensures
        (forall|j: int| 0 <= j < a.len() ==> !begins(#[trigger] (a + p + b).skip(j), p))
            ==> replaced_first(a + p + b, p, by) == a + by + b,
        (forall|j: int| 0 <= j <= a.len() ==> !begins(#[trigger] a.skip(j), p)) ==> replaced_first(
            a,
            p,
            by,
        ) == a,
{
    let s = a + p + b;
    lemma_position_bound(s, p);
    lemma_position_bound(a, p);
    assert(s.skip(a.len() as int) =~= p + b);
    assert((p + b).take(p.len() as int) =~= p);
    assert(begins(s.skip(a.len() as int), p));
    if forall|j: int| 0 <= j < a.len() ==> !begins(#[trigger] (a + p + b).skip(j), p) {
        let i = position(s, p).unwrap();
        assert(s.skip(i).take(p.len() as int) =~= s.subrange(i, i + p.len()));
        assert(begins(s.skip(i), p));
        assert(i == a.len());
        assert(s.take(i) =~= a);
        assert(s.skip(i + p.len()) =~= b);
    }
    if forall|j: int| 0 <= j <= a.len() ==> !begins(#[trigger] a.skip(j), p) {
        if let Some(i) = position(a, p) {
            assert(a.skip(i).take(p.len() as int) =~= a.subrange(i, i + p.len()));
            assert(begins(a.skip(i), p));
        }
    }
}

/// Only the capitals of ASCII are another letter in small: the one of the same
/// place in the alphabet. Two texts are the same in any case exactly if they are
/// the same in small letters.
pub proof fn law_lower(c: char, a: Seq<char>, b: Seq<char>)
    ensures
        'A' <= c <= 'Z' ==> lower(c) as int - 'a' as int == c as int - 'A' as int,
        !('A' <= c <= 'Z') ==> lower(c) == c,
        lower(lower(c)) == lower(c),
        same_ignoring_case(a, b) <==> a.map_values(|x: char| lower(x)) == b.map_values(
            |x: char| lower(x),
        ),
        same_ignoring_case(a, a),
{
    let x = a.map_values(|x: char| lower(x));
    let y = b.map_values(|x: char| lower(x));
    if same_ignoring_case(a, b) {
        assert(x =~= y);
    }
    if x == y {
        assert(x.len() == a.len() && y.len() == b.len());
        assert forall|i: int| 0 <= i < a.len() implies lower(#[trigger] a[i]) == lower(b[i]) by {
            assert(x[i] == lower(a[i]) && y[i] == lower(b[i]));
        }
    }
}

/// Of two texts the one comes first that has the lesser character where they
/// first differ, or that ends there.
pub proof fn law_comes_before(a: Seq<char>, b: Seq<char>)
    requires
        comes_before(a, b),
    ensures
        exists|i: int|
            0 <= i <= a.len() && i < b.len() && #[trigger] a.take(i) == b.take(i) && (i == a.len()
                || a[i] < b[i]),
    decreases a.len(),
{
    if a.len() == 0 || a[0] != b[0] {
        assert(a.take(0) =~= b.take(0));
    } else {
        law_comes_before(a.drop_first(), b.drop_first());
        let i = choose|i: int|
            0 <= i <= a.drop_first().len() && i < b.drop_first().len()
                && #[trigger] a.drop_first().take(i) == b.drop_first().take(i) && (i
                == a.drop_first().len() || a.drop_first()[i] < b.drop_first()[i]);
        assert(a.take(i + 1) =~= seq![a[0]] + a.drop_first().take(i));
        assert(b.take(i + 1) =~= seq![b[0]] + b.drop_first().take(i));
        assert(a.take(i + 1) == b.take(i + 1));
    }
}

/// A digit stands for its place among the ten digits and the letters, small or
/// capital; nothing else is a digit.
pub proof fn law_digit_value(c: char, i: int)
    ensures
        0 <= i < 36 ==> digit_value("0123456789abcdefghijklmnopqrstuvwxyz"@[i]) == Some(i as nat)
            && digit_value("0123456789ABCDEFGHIJKLMNOPQRSTUVWXYZ"@[i]) == Some(i as nat),
        digit_value(c) is Some ==> "0123456789abcdefghijklmnopqrstuvwxyz"@.contains(c)
            || "0123456789ABCDEFGHIJKLMNOPQRSTUVWXYZ"@.contains(c),
{
    reveal_strlit("0123456789abcdefghijklmnopqrstuvwxyz");
    reveal_strlit("0123456789ABCDEFGHIJKLMNOPQRSTUVWXYZ");
    let small = "0123456789abcdefghijklmnopqrstuvwxyz"@;
    let large = "0123456789ABCDEFGHIJKLMNOPQRSTUVWXYZ"@;
    assert(small.len() == 36 && large.len() == 36);
    if let Some(d) = digit_value(c) {
        if 'A' <= c && c <= 'Z' {
            assert(large[d as int] == c);
        } else {
            assert(small[d as int] == c);
        }
    }
}

/// A number in decimal is read back as itself: it is all digits, without a
/// leading zero unless it is zero.
pub proof fn law_decimal(n: nat)
    ensures
        decimal(n).len() > 0,
        forall|i: int| 0 <= i < decimal(n).len() ==> '0' <= #[trigger] decimal(n)[i] <= '9',
        decimal(n)[0] == '0' ==> n == 0,
        digits_value(decimal(n), 10) == n,
    decreases n,
{
    if n < 10 {
        let s = decimal(n);
        assert(s.drop_last() =~= Seq::<char>::empty());
        assert(digits_value(Seq::<char>::empty(), 10) == 0);
        assert(digit_value(digit(n)) == Some(n));
    } else {
        law_decimal(n / 10);
        let s = decimal(n);
        assert(s.drop_last() =~= decimal(n / 10));
        assert(s.last() == digit(n % 10));
        assert(digit_value(digit(n % 10)) == Some(n % 10));
        assert(s[0] == decimal(n / 10)[0]);
        assert forall|i: int| 0 <= i < s.len() implies '0' <= #[trigger] s[i] <= '9' by {
            if i < s.len() - 1 {
                assert(s[i] == decimal(n / 10)[i]);
            }
        }
    }
}

/// A negative number has a minus sign before what it is without it.
pub proof fn law_decimal_signed(n: nat)
    ensures
        decimal_signed(n as int) == decimal(n),
        n > 0 ==> decimal_signed(-n) == seq!['-'] + decimal(n),
{
}

/// The value of digits: each counts `radix` times what the next does.
pub proof fn law_digits_value(s: Seq<char>, c: char, radix: nat)
    requires
        is_digit(c, radix),
    ensures
        digits_value(s.push(c), radix) == digits_value(s, radix) * radix + digit_value(c).unwrap(),
        digits_value(Seq::empty(), radix) == 0,
{
    assert(s.push(c).drop_last() =~= s);
}

/// A number that is written out is read, up to the largest that is asked for;
/// a plus sign before it does not matter, and what holds anything but digits, or
/// nothing, is no number.
pub proof fn law_number(n: nat, s: Seq<char>, radix: nat, max: nat)
    ensures
        number(decimal(n), 10, max) == if n <= max {
            Some(n)
        } else {
            None
        },
        s.len() == 0 || s[0] != '+' ==> number(seq!['+'] + s, radix, max) == number(s, radix, max),
        number(s, radix, max) matches Some(v) ==> v <= max && s.len() > 0 && v == digits_value(
            without_plus(s),
            radix,
        ),
        number(s, radix, max) is Some ==> forall|i: int|
            0 <= i < s.len() ==> is_digit(#[trigger] s[i], radix) || (i == 0 && s[0] == '+'),
        s.len() > 0 && (forall|i: int| 0 <= i < s.len() ==> is_digit(#[trigger] s[i], radix))
            && digits_value(s, radix) <= max ==> number(s, radix, max) == Some(
            digits_value(s, radix),
        ),
{
    law_decimal(n);
    let d = decimal(n);
    assert(d[0] != '+');
    assert(without_plus(d) == d);
    assert forall|i: int| 0 <= i < d.len() implies is_digit(#[trigger] d[i], 10) by {}
    let p = seq!['+'] + s;
    assert(p.drop_first() =~= s);
    assert(without_plus(p) == s);
    if number(s, radix, max) is Some {
        let w = without_plus(s);
        assert forall|i: int| 0 <= i < s.len() implies is_digit(#[trigger] s[i], radix) || (i == 0
            && s[0] == '+') by {
            if s[0] == '+' {
                if i > 0 {
                    assert(w[i - 1] == s[i]);
                }
            } else {
                assert(w[i] == s[i]);
            }
        }
    }
    if s.len() > 0 && (forall|i: int| 0 <= i < s.len() ==> is_digit(#[trigger] s[i], radix)) {
        assert(is_digit(s[0], radix));
        assert(s[0] != '+');
    }
}

} // verus!
