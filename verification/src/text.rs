//! Character-level text handling shared by the kernel-file parsers: lines,
//! whitespace-separated words, trimming, prefixes and unsigned numbers.
//!
//! Every exec function here is proved equal to a spec function that states
//! the same thing the standard library documents for `str::lines`,
//! `str::split_whitespace`, `str::trim` and `u64::from_str_radix`.
use vstd::prelude::*;

verus! {

/// `String::push`: after the call the string holds its earlier characters
/// followed by `ch` (the standard library documents it as appending the
/// given `char` to the end of the `String`).
pub assume_specification[ String::push ](s: &mut String, ch: char)
    ensures
        final(s)@ == old(s)@.push(ch),
;

// ---------------------------------------------------------------------
// Characters
// ---------------------------------------------------------------------

/// Unicode `White_Space`, the set that `char::is_whitespace` tests.
pub open spec fn is_ws(c: char) -> bool {
    let u = c as u32;
    ||| 9 <= u <= 13
    ||| u == 32
    ||| u == 0x85
    ||| u == 0xA0
    ||| u == 0x1680
    ||| 0x2000 <= u <= 0x200A
    ||| u == 0x2028
    ||| u == 0x2029
    ||| u == 0x202F
    ||| u == 0x205F
    ||| u == 0x3000
}

pub fn is_whitespace(c: char) -> (r: bool)
    ensures
        r == is_ws(c),
{
    let u = c as u32;
    (9 <= u && u <= 13) || u == 32 || u == 0x85 || u == 0xA0 || u == 0x1680 || (0x2000 <= u && u
        <= 0x200A) || u == 0x2028 || u == 0x2029 || u == 0x202F || u == 0x205F || u == 0x3000
}

/// The characters of a string slice, in order.
pub fn chars_of(s: &str) -> (r: Vec<char>)
    ensures
        r@ == s@,
{
    let mut r: Vec<char> = Vec::new();
    for c in it: s.chars()
        invariant
            r@ == it.seq().take(it.index() as int),
            it.seq() == s@,
    {
        r.push(c);
    }
    r
}

/// A `String` holding exactly the given characters.
pub fn string_of(v: &[char]) -> (r: String)
    ensures
        r@ == v@,
{
    let mut r = String::new();
    let mut i: usize = 0;
    while i < v.len()
        invariant
            i <= v.len(),
            r@ == v@.take(i as int),
        decreases v.len() - i,
    {
        r.push(v[i]);
        i = i + 1;
        assert(r@ =~= v@.take(i as int));
    }
    assert(v@.take(i as int) =~= v@);
    r
}

/// Characters `from..to` of `v`.
pub fn slice_chars(v: &Vec<char>, from: usize, to: usize) -> (r: Vec<char>)
    requires
        from <= to <= v.len(),
    ensures
        r@ == v@.subrange(from as int, to as int),
{
    let mut r: Vec<char> = Vec::new();
    let mut i: usize = from;
    while i < to
        invariant
            from <= i <= to <= v.len(),
            r@ == v@.subrange(from as int, i as int),
        decreases to - i,
    {
        r.push(v[i]);
        i = i + 1;
        assert(r@ =~= v@.subrange(from as int, i as int));
    }
    r
}

/// Whether `a` and `b` hold the same characters.
pub fn same_chars(a: &Vec<char>, b: &Vec<char>) -> (r: bool)
    ensures
        r == (a@ == b@),
{
    if a.len() != b.len() {
        return false;
    }
    let mut i: usize = 0;
    while i < a.len()
        invariant
            i <= a.len() == b.len(),
            a@.take(i as int) == b@.take(i as int),
        decreases a.len() - i,
    {
        if a[i] != b[i] {
            assert(a@[i as int] != b@[i as int]);
            return false;
        }
        i = i + 1;
        assert(a@.take(i as int) =~= b@.take(i as int)) by {
            assert(a@.take(i as int) =~= a@.take(i - 1).push(a@[i - 1]));
            assert(b@.take(i as int) =~= b@.take(i - 1).push(b@[i - 1]));
        }
    }
    assert(a@ =~= a@.take(i as int));
    assert(b@ =~= b@.take(i as int));
    true
}

// ---------------------------------------------------------------------
// Prefixes and suffixes
// ---------------------------------------------------------------------

pub open spec fn has_prefix(s: Seq<char>, p: Seq<char>) -> bool {
    p.len() <= s.len() && s.take(p.len() as int) == p
}

pub open spec fn has_suffix(s: Seq<char>, p: Seq<char>) -> bool {
    p.len() <= s.len() && s.skip(s.len() - p.len()) == p
}

pub fn starts_with(s: &Vec<char>, p: &Vec<char>) -> (r: bool)
    ensures
        r == has_prefix(s@, p@),
{
    if p.len() > s.len() {
        return false;
    }
    let mut i: usize = 0;
    while i < p.len()
        invariant
            i <= p.len() <= s.len(),
            s@.take(i as int) == p@.take(i as int),
        decreases p.len() - i,
    {
        if s[i] != p[i] {
            assert(s@.take(p.len() as int)[i as int] != p@[i as int]);
            return false;
        }
        i = i + 1;
        assert(s@.take(i as int) =~= p@.take(i as int)) by {
            assert(s@.take(i as int) =~= s@.take(i - 1).push(s@[i - 1]));
            assert(p@.take(i as int) =~= p@.take(i - 1).push(p@[i - 1]));
        }
    }
    assert(p@ =~= p@.take(i as int));
    true
}

pub fn ends_with(s: &Vec<char>, p: &Vec<char>) -> (r: bool)
    ensures
        r == has_suffix(s@, p@),
{
    if p.len() > s.len() {
        return false;
    }
    let off: usize = s.len() - p.len();
    let mut i: usize = 0;
    while i < p.len()
        invariant
            off + p.len() == s.len(),
            i <= p.len(),
            forall|j: int| 0 <= j < i ==> s@[off + j] == p@[j],
        decreases p.len() - i,
    {
        if s[off + i] != p[i] {
            assert(s@.skip(off as int)[i as int] != p@[i as int]);
            return false;
        }
        i = i + 1;
    }
    assert(s@.skip(off as int) =~= p@);
    true
}

// ---------------------------------------------------------------------
// Searching for a character
// ---------------------------------------------------------------------

/// Number of characters before the first `c` (all of them if none).
pub open spec fn len_before(s: Seq<char>, c: char) -> nat
    decreases s.len(),
{
    if s.len() == 0 || s[0] == c {
        0
    } else {
        1 + len_before(s.drop_first(), c)
    }
}

pub proof fn lemma_len_before(s: Seq<char>, c: char, k: int)
    requires
        0 <= k <= s.len(),
        forall|j: int| 0 <= j < k ==> s[j] != c,
        k == s.len() || s[k] == c,
    ensures
        len_before(s, c) == k,
    decreases k,
{
    if k > 0 {
        lemma_len_before(s.drop_first(), c, k - 1);
    }
}

/// Position of the first `c` in `s`.
pub fn find_char(s: &Vec<char>, c: char) -> (r: Option<usize>)
    ensures
        match r {
            Some(k) => k < s.len() && k == len_before(s@, c),
            None => len_before(s@, c) == s.len(),
        },
{
    let mut i: usize = 0;
    while i < s.len()
        invariant
            i <= s.len(),
            forall|j: int| 0 <= j < i ==> s@[j] != c,
        decreases s.len() - i,
    {
        if s[i] == c {
            proof {
                lemma_len_before(s@, c, i as int);
            }
            return Some(i);
        }
        i = i + 1;
    }
    proof {
        lemma_len_before(s@, c, i as int);
    }
    None
}

// ---------------------------------------------------------------------
// Lines (`str::lines`)
// ---------------------------------------------------------------------

/// Number of characters before the first `'\n'` (all of them if none).
pub open spec fn line_len(s: Seq<char>) -> nat
    decreases s.len(),
{
    if s.len() == 0 || s[0] == '\n' {
        0
    } else {
        1 + line_len(s.drop_first())
    }
}

/// A line ended by `"\r\n"` loses its `'\r'`.
pub open spec fn strip_cr(l: Seq<char>) -> Seq<char> {
    if l.len() > 0 && l.last() == '\r' {
        l.drop_last()
    } else {
        l
    }
}

/// The lines of `s` as `str::lines` gives them: split at `'\n'`, a `'\r'`
/// before the `'\n'` removed, and no empty line after a final `'\n'`.
pub open spec fn spec_lines(s: Seq<char>) -> Seq<Seq<char>>
    decreases s.len(),
{
    if s.len() == 0 {
        seq![]
    } else if line_len(s) < s.len() {
        seq![strip_cr(s.take(line_len(s) as int))] + spec_lines(s.skip(line_len(s) + 1int))
    } else {
        seq![s]
    }
}

pub open spec fn views(v: Seq<Vec<char>>) -> Seq<Seq<char>> {
    v.map_values(|x: Vec<char>| x@)
}

proof fn lemma_line_len(s: Seq<char>, k: int)
    requires
        0 <= k <= s.len(),
        forall|j: int| 0 <= j < k ==> s[j] != '\n',
        k == s.len() || s[k] == '\n',
    ensures
        line_len(s) == k,
    decreases k,
{
    if k > 0 {
        lemma_line_len(s.drop_first(), k - 1);
    }
}

proof fn lemma_line_len_props(s: Seq<char>)
    ensures
        line_len(s) <= s.len(),
        forall|j: int| 0 <= j < line_len(s) ==> s[j] != '\n',
        line_len(s) < s.len() ==> s[line_len(s) as int] == '\n',
    decreases s.len(),
{
    if s.len() > 0 && s[0] != '\n' {
        lemma_line_len_props(s.drop_first());
        assert forall|j: int| 0 <= j < line_len(s) implies s[j] != '\n' by {
            if j > 0 {
                assert(s[j] == s.drop_first()[j - 1]);
            }
        }
    }
}

/// Text that ends at a line break splits into its own lines followed by
/// the lines of what comes after it.
pub proof fn lemma_lines_concat(a: Seq<char>, b: Seq<char>)
    requires
        a.len() == 0 || a.last() == '\n',
    ensures
        spec_lines(a + b) == spec_lines(a) + spec_lines(b),
    decreases a.len(),
{
    if a.len() == 0 {
        assert(a + b =~= b);
        assert(spec_lines(a) + spec_lines(b) =~= spec_lines(b));
    } else {
        lemma_line_len_props(a);
        let k = line_len(a);
        if k == a.len() {
            assert(a[a.len() - 1] == a.last());
        }
        assert(k < a.len());
        let ab = a + b;
        assert forall|j: int| 0 <= j < k implies ab[j] != '\n' by {
            assert(ab[j] == a[j]);
        }
        assert(ab[k as int] == a[k as int]);
        lemma_line_len(ab, k as int);
        assert(ab.take(k as int) =~= a.take(k as int));
        let rest = a.skip(k + 1int);
        assert(ab.skip(k + 1int) =~= rest + b);
        if rest.len() > 0 {
            assert(rest.last() == a.last());
        }
        lemma_lines_concat(rest, b);
        assert(spec_lines(ab) =~= spec_lines(a) + spec_lines(b));
    }
}

/// Splits `s` into its lines.
pub fn lines_of(s: &Vec<char>) -> (r: Vec<Vec<char>>)
    ensures
        views(r@) == spec_lines(s@),
{
    let mut out: Vec<Vec<char>> = Vec::new();
    let mut start: usize = 0;
    let mut i: usize = 0;
    assert(s@.skip(0) =~= s@);
    assert(views(out@) + spec_lines(s@) =~= spec_lines(s@));
    while i < s.len()
        invariant
            start <= i <= s.len(),
            forall|j: int| start <= j < i ==> s@[j] != '\n',
            views(out@) + spec_lines(s@.skip(start as int)) == spec_lines(s@),
        decreases s.len() - i,
    {
        if s[i] == '\n' {
            let ghost rest = s@.skip(start as int);
            proof {
                lemma_line_len(rest, i - start);
                assert(rest.take(i - start) =~= s@.subrange(start as int, i as int));
                assert(rest.skip(i - start + 1) =~= s@.skip(i + 1));
            }
            let mut end = i;
            if end > start && s[end - 1] == '\r' {
                end = end - 1;
            }
            let line = slice_chars(s, start, end);
            assert(line@ == strip_cr(rest.take(i - start)));
            let ghost before = out@;
            out.push(line);
            assert(views(out@) =~= views(before) + seq![line@]);
            start = i + 1;
        }
        i = i + 1;
    }
    if start < s.len() {
        let ghost rest = s@.skip(start as int);
        proof {
            lemma_line_len(rest, rest.len() as int);
        }
        let line = slice_chars(s, start, s.len());
        assert(line@ =~= rest);
        let ghost before = out@;
        out.push(line);
        assert(views(out@) =~= views(before) + seq![line@]);
        assert(spec_lines(rest) == seq![rest]);
    } else {
        assert(s@.skip(start as int).len() == 0);
    }
    assert(views(out@) =~= spec_lines(s@));
    out
}

// ---------------------------------------------------------------------
// Words (`str::split_whitespace`)
// ---------------------------------------------------------------------

/// Number of characters before the first whitespace (all if none).
pub open spec fn word_len(s: Seq<char>) -> nat
    decreases s.len(),
{
    if s.len() == 0 || is_ws(s[0]) {
        0
    } else {
        1 + word_len(s.drop_first())
    }
}

/// The maximal runs of non-whitespace characters of `s`, in order.
pub open spec fn spec_words(s: Seq<char>) -> Seq<Seq<char>>
    decreases s.len(),
{
    if s.len() == 0 {
        seq![]
    } else if is_ws(s[0]) {
        spec_words(s.drop_first())
    } else {
        proof {
            lemma_word_len_bound(s);
        }
        seq![s.take(word_len(s) as int)] + spec_words(s.skip(word_len(s) as int))
    }
}

pub proof fn lemma_word_len_bound(s: Seq<char>)
    ensures
        word_len(s) <= s.len(),
        s.len() > 0 && !is_ws(s[0]) ==> word_len(s) > 0,
    decreases s.len(),
{
    if s.len() > 0 && !is_ws(s[0]) {
        lemma_word_len_bound(s.drop_first());
    }
}

proof fn lemma_word_len(s: Seq<char>, k: int)
    requires
        0 <= k <= s.len(),
        forall|j: int| 0 <= j < k ==> !is_ws(s[j]),
        k == s.len() || is_ws(s[k]),
    ensures
        word_len(s) == k,
    decreases k,
{
    if k > 0 {
        lemma_word_len(s.drop_first(), k - 1);
    }
}

/// Splits `s` at whitespace into its words.
pub fn words_of(s: &Vec<char>) -> (r: Vec<Vec<char>>)
    ensures
        views(r@) == spec_words(s@),
{
    let mut out: Vec<Vec<char>> = Vec::new();
    let mut start: usize = 0;
    let mut i: usize = 0;
    assert(s@.skip(0) =~= s@);
    assert(views(out@) + spec_words(s@) =~= spec_words(s@));
    while i < s.len()
        invariant
            start <= i <= s.len(),
            forall|j: int| start <= j < i ==> !is_ws(s@[j]),
            views(out@) + spec_words(s@.skip(start as int)) == spec_words(s@),
        decreases s.len() - i,
    {
        if is_whitespace(s[i]) {
            let ghost rest = s@.skip(start as int);
            assert(spec_words(s@.skip(i as int)) == spec_words(s@.skip(i + 1))) by {
                assert(s@.skip(i as int).drop_first() =~= s@.skip(i + 1));
            }
            if start < i {
                proof {
                    lemma_word_len(rest, i - start);
                    assert(rest.take(i - start) =~= s@.subrange(start as int, i as int));
                    assert(rest.skip(i - start) =~= s@.skip(i as int));
                    assert(!is_ws(rest[0]));
                    assert(spec_words(rest) == seq![rest.take(i - start)] + spec_words(s@.skip(i as int)));
                }
                let word = slice_chars(s, start, i);
                let ghost before = out@;
                out.push(word);
                assert(views(out@) =~= views(before) + seq![word@]);
            }
            assert(s@.skip(i as int).drop_first() =~= s@.skip(i + 1));
            start = i + 1;
        }
        i = i + 1;
    }
    if start < s.len() {
        let ghost rest = s@.skip(start as int);
        proof {
            lemma_word_len(rest, rest.len() as int);
            assert(rest.skip(rest.len() as int).len() == 0);
            assert(rest.take(rest.len() as int) =~= rest);
        }
        let word = slice_chars(s, start, s.len());
        assert(word@ =~= rest);
        assert(!is_ws(rest[0]));
        assert(spec_words(rest.skip(rest.len() as int)) =~= Seq::<Seq<char>>::empty());
        assert(spec_words(rest) =~= seq![rest]);
        let ghost before = out@;
        out.push(word);
        assert(views(out@) =~= views(before) + seq![word@]);
    } else {
        assert(spec_words(s@.skip(start as int)) =~= Seq::<Seq<char>>::empty());
    }
    assert(views(out@) =~= spec_words(s@));
    out
}

// ---------------------------------------------------------------------
// Trimming (`str::trim`)
// ---------------------------------------------------------------------

pub open spec fn trim_start(s: Seq<char>) -> Seq<char>
    decreases s.len(),
{
    if s.len() > 0 && is_ws(s[0]) {
        trim_start(s.drop_first())
    } else {
        s
    }
}

pub open spec fn trim_end(s: Seq<char>) -> Seq<char>
    decreases s.len(),
{
    if s.len() > 0 && is_ws(s.last()) {
        trim_end(s.drop_last())
    } else {
        s
    }
}

/// `s` without leading and trailing whitespace.
pub open spec fn spec_trim(s: Seq<char>) -> Seq<char> {
    trim_end(trim_start(s))
}

proof fn lemma_trim_start(s: Seq<char>, k: int)
    requires
        0 <= k <= s.len(),
        forall|j: int| 0 <= j < k ==> is_ws(s[j]),
        k == s.len() || !is_ws(s[k]),
    ensures
        trim_start(s) == s.skip(k),
    decreases k,
{
    if k > 0 {
        lemma_trim_start(s.drop_first(), k - 1);
        assert(s.drop_first().skip(k - 1) =~= s.skip(k));
    } else {
        assert(s.skip(0) =~= s);
    }
}

proof fn lemma_trim_end(s: Seq<char>, k: int)
    requires
        0 <= k <= s.len(),
        forall|j: int| k <= j < s.len() ==> is_ws(s[j]),
        k == 0 || !is_ws(s[k - 1]),
    ensures
        trim_end(s) == s.take(k),
    decreases s.len() - k,
{
    if k < s.len() {
        lemma_trim_end(s.drop_last(), k);
        assert(s.drop_last().take(k) =~= s.take(k));
    } else {
        assert(s.take(k) =~= s);
    }
}

/// `s` with leading and trailing whitespace removed.
pub fn trim_chars(s: &Vec<char>) -> (r: Vec<char>)
    ensures
        r@ == spec_trim(s@),
{
    let mut a: usize = 0;
    while a < s.len() && is_whitespace(s[a])
        invariant
            a <= s.len(),
            forall|j: int| 0 <= j < a ==> is_ws(s@[j]),
        decreases s.len() - a,
    {
        a = a + 1;
    }
    proof {
        lemma_trim_start(s@, a as int);
    }
    let mut b: usize = s.len();
    while b > a && is_whitespace(s[b - 1])
        invariant
            a <= b <= s.len(),
            forall|j: int| b <= j < s.len() ==> is_ws(s@[j]),
        decreases b,
    {
        b = b - 1;
    }
    let ghost t = s@.skip(a as int);
    proof {
        lemma_trim_end(t, b - a);
        assert(t.take(b - a) =~= s@.subrange(a as int, b as int));
    }
    slice_chars(s, a, b)
}

// ---------------------------------------------------------------------
// Unsigned numbers (`from_str_radix` for unsigned types)
// ---------------------------------------------------------------------

/// The value of `c` as a digit in `radix` (at most 36), as `char::to_digit`.
pub open spec fn digit_value(c: char, radix: nat) -> Option<nat> {
    let u = c as u32;
    if 48 <= u <= 57 && u - 48 < radix {
        Some((u - 48) as nat)
    } else if 97 <= u <= 122 && u - 87 < radix {
        Some((u - 87) as nat)
    } else if 65 <= u <= 90 && u - 55 < radix {
        Some((u - 55) as nat)
    } else {
        None
    }
}

pub open spec fn all_digits(s: Seq<char>, radix: nat) -> bool {
    forall|i: int| 0 <= i < s.len() ==> (#[trigger] digit_value(s[i], radix)) is Some
}

/// The number that the digits `s` write in `radix`, most significant first.
pub open spec fn radix_value(s: Seq<char>, radix: nat) -> nat
    decreases s.len(),
{
    if s.len() == 0 {
        0
    } else {
        radix_value(s.drop_last(), radix) * radix + digit_value(s.last(), radix).unwrap_or(0)
    }
}

/// The digits after an optional leading `'+'`.
pub open spec fn unsigned_digits(s: Seq<char>) -> Seq<char> {
    if s.len() > 0 && s[0] == '+' {
        s.drop_first()
    } else {
        s
    }
}

/// What `from_str_radix` gives for an unsigned type whose largest value is
/// `max`: an optional `'+'`, then at least one digit, only digits, and a
/// value that fits.
pub open spec fn spec_parse_unsigned(s: Seq<char>, radix: nat, max: nat) -> Option<nat> {
    let d = unsigned_digits(s);
    if d.len() > 0 && all_digits(d, radix) && radix_value(d, radix) <= max {
        Some(radix_value(d, radix))
    } else {
        None
    }
}

/// `u64::from_str`.
pub open spec fn spec_parse_u64(s: Seq<char>) -> Option<nat> {
    spec_parse_unsigned(s, 10, u64::MAX as nat)
}

proof fn lemma_radix_value_prefix(s: Seq<char>, radix: nat, i: int)
    requires
        radix >= 1,
        0 <= i <= s.len(),
    ensures
        radix_value(s.take(i), radix) <= radix_value(s, radix),
    decreases s.len() - i,
{
    if i < s.len() {
        lemma_radix_value_prefix(s.drop_last(), radix, i);
        assert(s.drop_last().take(i) =~= s.take(i));
        let a = radix_value(s.drop_last(), radix);
        let d = digit_value(s.last(), radix).unwrap_or(0);
        assert(a <= a * radix + d) by (nonlinear_arith)
            requires
                radix >= 1,
        ;
    } else {
        assert(s.take(i) =~= s);
    }
}

fn digit_of(c: char, radix: u64) -> (r: Option<u64>)
    requires
        radix <= 36,
    ensures
        match r {
            Some(v) => digit_value(c, radix as nat) == Some(v as nat),
            None => digit_value(c, radix as nat) is None,
        },
{
    let u = c as u32;
    if 48 <= u && u <= 57 && ((u - 48) as u64) < radix {
        Some((u - 48) as u64)
    } else if 97 <= u && u <= 122 && ((u - 87) as u64) < radix {
        Some((u - 87) as u64)
    } else if 65 <= u && u <= 90 && ((u - 55) as u64) < radix {
        Some((u - 55) as u64)
    } else {
        None
    }
}

/// Parses an unsigned number in `radix` (10 or 16) no larger than `max`.
pub fn parse_unsigned(s: &Vec<char>, radix: u64, max: u64) -> (r: Option<u64>)
    requires
        radix == 10 || radix == 16,
    ensures
        match r {
            Some(v) => spec_parse_unsigned(s@, radix as nat, max as nat) == Some(v as nat),
            None => spec_parse_unsigned(s@, radix as nat, max as nat) is None,
        },
{
    let ghost d = unsigned_digits(s@);
    let start: usize = if s.len() > 0 && s[0] == '+' {
        1
    } else {
        0
    };
    assert(d =~= s@.skip(start as int));
    if start >= s.len() {
        return None;
    }
    let mut v: u64 = 0;
    let mut i: usize = start;
    while i < s.len()
        invariant
            start <= i <= s.len(),
            start < s.len(),
            radix == 10 || radix == 16,
            d =~= s@.skip(start as int),
            d == unsigned_digits(s@),
            all_digits(d.take(i - start), radix as nat),
            v as nat == radix_value(d.take(i - start), radix as nat),
            v <= max,
        decreases s.len() - i,
    {
        let k = i - start;
        assert(d.take(k + 1).drop_last() =~= d.take(k as int));
        assert(d.take(k + 1).last() == s@[i as int]);
        let dg = match digit_of(s[i], radix) {
            Some(x) => x,
            None => {
                assert(d[k as int] == s@[i as int]);
                assert(!all_digits(d, radix as nat)) by {
                    assert(digit_value(d[k as int], radix as nat) is None);
                }
                assert(unsigned_digits(s@) == d);
                assert(spec_parse_unsigned(s@, radix as nat, max as nat) is None);
                return None;
            },
        };
        assert(dg < 16);
        assert((v as u128) * (radix as u128) <= 0xFFFF_FFFF_FFFF_FFFFu128 * 16) by (nonlinear_arith)
            requires
                v <= 0xFFFF_FFFF_FFFF_FFFFu64,
                radix <= 16,
        ;
        let nv: u128 = (v as u128) * (radix as u128) + (dg as u128);
        assert(nv == radix_value(d.take(k + 1), radix as nat));
        if nv > max as u128 {
            proof {
                lemma_radix_value_prefix(d, radix as nat, k + 1);
                assert(radix_value(d, radix as nat) > max as nat);
            }
            return None;
        }
        v = nv as u64;
        i = i + 1;
        assert forall|j: int| 0 <= j < i - start implies (#[trigger] digit_value(
            d.take(i - start)[j],
            radix as nat,
        )) is Some by {
            if j < k {
                assert(d.take(i - start)[j] == d.take(k as int)[j]);
            }
        }
    }
    assert(d.take(i - start) =~= d);
    Some(v)
}

/// `u64::from_str` on the characters `s`.
pub fn parse_u64(s: &Vec<char>) -> (r: Option<u64>)
    ensures
        match r {
            Some(v) => spec_parse_u64(s@) == Some(v as nat),
            None => spec_parse_u64(s@) is None,
        },
{
    parse_unsigned(s, 10, u64::MAX)
}

/// The character of digit `d` (below 16), lower-case letters for 10 and up.
pub open spec fn digit_char(d: nat) -> char {
    seq!['0', '1', '2', '3', '4', '5', '6', '7', '8', '9', 'a', 'b', 'c', 'd', 'e', 'f'][d as int]
}

/// The digits of `n` in `radix`, most significant first, without leading
/// zeros.
pub open spec fn radix_digits(n: nat, radix: nat) -> Seq<char>
    decreases n,
{
    if n < radix || radix < 2 {
        seq![digit_char(n)]
    } else {
        proof {
            assert(n / radix < n) by (nonlinear_arith)
                requires
                    radix >= 2,
                    n >= radix,
            ;
        }
        radix_digits(n / radix, radix).push(digit_char(n % radix))
    }
}

/// The decimal digits of `n`.
pub open spec fn decimal(n: nat) -> Seq<char> {
    radix_digits(n, 10)
}

/// A word: at least one character, none of them whitespace.
pub open spec fn is_word(w: Seq<char>) -> bool {
    w.len() > 0 && forall|i: int| 0 <= i < w.len() ==> !is_ws(#[trigger] w[i])
}

proof fn lemma_digit_char(d: nat, radix: nat)
    requires
        radix == 10 || radix == 16,
        d < radix,
    ensures
        digit_value(digit_char(d), radix) == Some(d),
        !is_ws(digit_char(d)),
        digit_char(d) != '+',
        digit_char(d) != 'x',
        digit_char(d) != ':',
        radix == 10 ==> 48 <= digit_char(d) as u32 <= 57,
{
    let s = seq!['0', '1', '2', '3', '4', '5', '6', '7', '8', '9', 'a', 'b', 'c', 'd', 'e', 'f'];
    assert(s[0] == '0' && s[1] == '1' && s[2] == '2' && s[3] == '3' && s[4] == '4');
    assert(s[5] == '5' && s[6] == '6' && s[7] == '7' && s[8] == '8' && s[9] == '9');
    assert(s[10] == 'a' && s[11] == 'b' && s[12] == 'c' && s[13] == 'd' && s[14] == 'e');
    assert(s[15] == 'f');
}

pub proof fn lemma_radix_digits(n: nat, radix: nat)
    requires
        radix == 10 || radix == 16,
    ensures
        is_word(radix_digits(n, radix)),
        all_digits(radix_digits(n, radix), radix),
        radix_value(radix_digits(n, radix), radix) == n,
        radix_digits(n, radix)[0] != '+',
        radix_digits(n, radix).len() >= 2 ==> radix_digits(n, radix)[1] != 'x',
        forall|i: int| 0 <= i < radix_digits(n, radix).len() ==> (#[trigger] radix_digits(n, radix)[i]) != ':',
        radix == 10 ==> forall|i: int|
            0 <= i < radix_digits(n, radix).len() ==> 48 <= (#[trigger] radix_digits(n, radix)[i]) as u32 <= 57,
    decreases n,
{
    let s = radix_digits(n, radix);
    if n < radix {
        lemma_digit_char(n, radix);
        assert(s.drop_last() =~= Seq::<char>::empty());
        assert(radix_value(Seq::<char>::empty(), radix) == 0);
        assert(radix_value(s, radix) == 0 * radix + n);
    } else {
        lemma_radix_digits(n / radix, radix);
        lemma_digit_char(n % radix, radix);
        let p = radix_digits(n / radix, radix);
        assert(s.drop_last() =~= p);
        assert(s[0] == p[0]);
        assert(s.last() == digit_char(n % radix));
        assert(radix_value(s, radix) == radix_value(p, radix) * radix + n % radix);
        assert(n == (n / radix) * radix + n % radix) by (nonlinear_arith)
            requires
                radix > 0,
        ;
        assert forall|i: int| 0 <= i < s.len() implies !is_ws(#[trigger] s[i]) && (digit_value(
            s[i],
            radix,
        )) is Some && s[i] != ':' && (radix == 10 ==> 48 <= s[i] as u32 <= 57) by {
            if i < p.len() {
                assert(s[i] == p[i]);
            }
        }
        assert(all_digits(s, radix));
        if s.len() >= 2 {
            if p.len() >= 2 {
                assert(s[1] == p[1]);
            } else {
                assert(s[1] == digit_char(n % radix));
            }
        }
    }
}

/// The decimal digits of any `u64` read back as that number.
pub proof fn law_parse_reads_decimal(n: nat)
    requires
        n <= u64::MAX,
    ensures
        spec_parse_u64(decimal(n)) == Some(n),
        spec_trim(decimal(n)) == decimal(n),
        spec_trim(decimal(n).push('\n')) == decimal(n),
{
    lemma_radix_digits(n, 10);
    let s = decimal(n);
    assert(unsigned_digits(s) == s);
    assert(trim_start(s) == s);
    assert(trim_end(s) == s);
    let t = s.push('\n');
    assert(t[0] == s[0]);
    assert(trim_start(t) == t);
    assert(t.drop_last() =~= s);
    assert(is_ws(t.last()));
    assert(trim_end(t) == trim_end(s));
}


/// The digits of any number no larger than `max`, in radix 10 or 16, read
/// back as that number.
pub proof fn law_parse_reads_digits(n: nat, radix: nat, max: nat)
    requires
        radix == 10 || radix == 16,
        n <= max,
    ensures
        spec_parse_unsigned(radix_digits(n, radix), radix, max) == Some(n),
{
    lemma_radix_digits(n, radix);
    assert(unsigned_digits(radix_digits(n, radix)) == radix_digits(n, radix));
}

/// Words separated by single spaces.
pub open spec fn join_words(ts: Seq<Seq<char>>) -> Seq<char>
    decreases ts.len(),
{
    if ts.len() == 0 {
        seq![]
    } else if ts.len() == 1 {
        ts[0]
    } else {
        ts[0] + seq![' '] + join_words(ts.drop_first())
    }
}

proof fn lemma_word_is_its_only_word(w: Seq<char>)
    requires
        is_word(w),
    ensures
        spec_words(w) == seq![w],
{
    lemma_word_len(w, w.len() as int);
    assert(w.take(w.len() as int) =~= w);
    assert(spec_words(w.skip(w.len() as int)) =~= Seq::<Seq<char>>::empty()) by {
        assert(w.skip(w.len() as int).len() == 0);
    }
}

/// Words joined by spaces split back into the same words.
pub proof fn law_words_of_joined(ts: Seq<Seq<char>>)
    requires
        forall|i: int| 0 <= i < ts.len() ==> is_word(#[trigger] ts[i]),
    ensures
        spec_words(join_words(ts)) == ts,
    decreases ts.len(),
{
    if ts.len() == 0 {
        assert(spec_words(join_words(ts)) =~= ts);
    } else if ts.len() == 1 {
        assert(is_word(ts[0]));
        lemma_word_is_its_only_word(ts[0]);
        assert(seq![ts[0]] =~= ts);
    } else {
        let w = ts[0];
        assert(is_word(w));
        let rest = join_words(ts.drop_first());
        let s = w + seq![' '] + rest;
        assert forall|i: int| 0 <= i < ts.drop_first().len() implies is_word(#[trigger] ts.drop_first()[i]) by {
            assert(ts.drop_first()[i] == ts[i + 1]);
        }
        law_words_of_joined(ts.drop_first());
        assert forall|j: int| 0 <= j < w.len() implies !is_ws(s[j]) by {
            assert(s[j] == w[j]);
        }
        assert(s[w.len() as int] == ' ');
        lemma_word_len(s, w.len() as int);
        assert(s.take(w.len() as int) =~= w);
        let t = s.skip(w.len() as int);
        assert(t[0] == ' ');
        assert(t.drop_first() =~= rest);
        assert(spec_words(t) == spec_words(rest));
        assert(!is_ws(s[0]));
        assert(spec_words(s) == seq![w] + spec_words(t));
        assert(seq![w] + ts.drop_first() =~= ts);
    }
}

/// `join_words(ts)` begins with its first word.
pub proof fn lemma_join_starts_with_first(ts: Seq<Seq<char>>)
    requires
        ts.len() > 0,
    ensures
        has_prefix(join_words(ts), ts[0]),
{
    if ts.len() == 1 {
        assert(ts[0].take(ts[0].len() as int) =~= ts[0]);
    } else {
        assert((ts[0] + seq![' '] + join_words(ts.drop_first())).take(ts[0].len() as int) =~= ts[0]);
    }
}

/// The decimal digits of each number.
pub open spec fn decimals(v: Seq<u64>) -> Seq<Seq<char>> {
    v.map_values(|x: u64| decimal(x as nat))
}

/// Decimal fields after some words: every field is a word, and each reads
/// back as its number.
pub proof fn lemma_decimal_fields(head: Seq<Seq<char>>, v: Seq<u64>)
    requires
        forall|i: int| 0 <= i < head.len() ==> is_word(#[trigger] head[i]),
    ensures
        spec_words(join_words(head + decimals(v))) == head + decimals(v),
        forall|k: int|
            0 <= k < v.len() ==> spec_parse_u64(#[trigger] (head + decimals(v))[head.len() + k]) == Some(
                v[k] as nat,
            ),
{
    let ts = head + decimals(v);
    assert forall|i: int| 0 <= i < ts.len() implies is_word(#[trigger] ts[i]) by {
        if i >= head.len() {
            lemma_radix_digits(v[i - head.len()] as nat, 10);
            assert(ts[i] == decimal(v[i - head.len()] as nat));
        } else {
            assert(ts[i] == head[i]);
        }
    }
    law_words_of_joined(ts);
    assert forall|k: int| 0 <= k < v.len() implies spec_parse_u64(
        #[trigger] (head + decimals(v))[head.len() + k],
    ) == Some(v[k] as nat) by {
        assert(ts[head.len() + k] == decimal(v[k] as nat));
        law_parse_reads_digits(v[k] as nat, 10, u64::MAX as nat);
    }
}

/// `k` spaces.
pub open spec fn indent(k: nat) -> Seq<char> {
    Seq::new(k, |i: int| ' ')
}

/// Leading spaces do not change the words of a text.
pub proof fn lemma_words_after_indent(k: nat, s: Seq<char>)
    ensures
        spec_words(indent(k) + s) == spec_words(s),
    decreases k,
{
    if k > 0 {
        let t = indent(k) + s;
        assert(t[0] == ' ');
        assert(t.drop_first() =~= indent((k - 1) as nat) + s);
        lemma_words_after_indent((k - 1) as nat, s);
    } else {
        assert(indent(k) + s =~= s);
    }
}

/// A word has no whitespace to trim.
pub proof fn lemma_trim_word(w: Seq<char>)
    requires
        is_word(w),
    ensures
        spec_trim(w) == w,
{
    assert(!is_ws(w[0]));
    assert(trim_start(w) == w);
    assert(!is_ws(w[w.len() - 1]));
    assert(trim_end(w) == w);
}

} // verus!
