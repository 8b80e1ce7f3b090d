//! Character-level text helpers: whitespace, trimming, first lines,
//! joining, decimal numbers and UTF-8 byte prefixes, all stated over `Seq<char>`.
use vstd::prelude::*;

verus! {

// ── Specifications ───────────────────────────────────────────────────────────

/// The Unicode `White_Space` property, which `char::is_whitespace` and
/// `str::trim` use.
pub open spec fn is_ws(c: char) -> bool {
    let u = c as u32;
    ||| 0x09 <= u <= 0x0D
    ||| u == 0x20
    ||| u == 0x85
    ||| u == 0xA0
    ||| u == 0x1680
    ||| 0x2000 <= u <= 0x200A
    ||| u == 0x2028
    ||| u == 0x2029
    ||| u == 0x202F
    ||| u == 0x205F
    ||| u == 0x3000
}

/// `s` without its leading whitespace.
pub open spec fn trim_start(s: Seq<char>) -> Seq<char>
    decreases s.len(),
{
    if s.len() > 0 && is_ws(s[0]) {
        trim_start(s.drop_first())
    } else {
        s
    }
}

/// `s` without its trailing whitespace.
pub open spec fn trim_end(s: Seq<char>) -> Seq<char>
    decreases s.len(),
{
    if s.len() > 0 && is_ws(s.last()) {
        trim_end(s.drop_last())
    } else {
        s
    }
}

/// `s` without leading and trailing whitespace (what `str::trim` returns).
pub open spec fn trim(s: Seq<char>) -> Seq<char> {
    trim_end(trim_start(s))
}

/// The index of the first `'\n'` at or after `i`, or `s.len()` when there is none.
pub open spec fn line_end(s: Seq<char>, i: int) -> int
    decreases s.len() - i,
{
    if 0 <= i < s.len() && s[i] != '\n' {
        line_end(s, i + 1)
    } else {
        i
    }
}

/// The first line of `s`, trimmed (the empty sequence for an empty `s`).
pub open spec fn first_line_text(s: Seq<char>) -> Seq<char> {
    trim(s.take(line_end(s, 0)))
}

/// The ellipsis that marks a shortened line.
pub open spec fn ellipsis() -> char {
    '\u{2026}'
}

/// `line` cut to `max_len` characters followed by an ellipsis when it is longer.
pub open spec fn truncate_line(line: Seq<char>, max_len: int) -> Seq<char> {
    if line.len() > max_len {
        line.take(max_len).push(ellipsis())
    } else {
        line
    }
}

/// The trimmed first line of `s`, shortened to at most `max_len` characters plus an ellipsis.
pub open spec fn spec_first_line(s: Seq<char>, max_len: int) -> Seq<char> {
    truncate_line(first_line_text(s), max_len)
}

/// The parts joined with `sep` between each two neighbours.
pub open spec fn join(parts: Seq<Seq<char>>, sep: Seq<char>) -> Seq<char>
    decreases parts.len(),
{
    if parts.len() == 0 {
        Seq::empty()
    } else if parts.len() == 1 {
        parts[0]
    } else {
        join(parts.drop_last(), sep) + sep + parts.last()
    }
}

/// The decimal digit for `d < 10`.
pub open spec fn digit_char(d: nat) -> char {
    if d == 0 {
        '0'
    } else if d == 1 {
        '1'
    } else if d == 2 {
        '2'
    } else if d == 3 {
        '3'
    } else if d == 4 {
        '4'
    } else if d == 5 {
        '5'
    } else if d == 6 {
        '6'
    } else if d == 7 {
        '7'
    } else if d == 8 {
        '8'
    } else {
        '9'
    }
}

/// The decimal notation of `n`, without leading zeros.
pub open spec fn decimal(n: nat) -> Seq<char>
    decreases n,
{
    if n < 10 {
        seq![digit_char(n)]
    } else {
        decimal(n / 10).push(digit_char(n % 10))
    }
}

/// What follows the last `'/'` in `s`, or all of `s` when it holds none
/// (the last piece of `str::split('/')`).
pub open spec fn after_last_slash(s: Seq<char>) -> Seq<char>
    decreases s.len(),
{
    if s.len() == 0 {
        s
    } else if s.last() == '/' {
        Seq::empty()
    } else {
        after_last_slash(s.drop_last()).push(s.last())
    }
}

/// The number of bytes of the UTF-8 encoding of `c`.
pub open spec fn utf8_width(c: char) -> nat {
    let u = c as u32;
    if u < 0x80 {
        1
    } else if u < 0x800 {
        2
    } else if u < 0x10000 {
        3
    } else {
        4
    }
}

/// The number of bytes of the UTF-8 encoding of `s`.
pub open spec fn utf8_len(s: Seq<char>) -> nat
    decreases s.len(),
{
    if s.len() == 0 {
        0
    } else {
        utf8_len(s.drop_last()) + utf8_width(s.last())
    }
}

/// Byte offset `n` of the UTF-8 encoding of `s` falls between two characters (or at an end).
pub open spec fn is_byte_boundary(s: Seq<char>, n: int) -> bool {
    exists|k: int| 0 <= k <= s.len() && #[trigger] utf8_len(s.take(k)) == n
}

/// The number of characters that the first `n` bytes of `s` encode, where `n` is a boundary.
pub open spec fn chars_in_bytes(s: Seq<char>, n: int) -> int {
    choose|k: int| 0 <= k <= s.len() && #[trigger] utf8_len(s.take(k)) == n
}

/// The first `n` bytes of `s`, as characters, where `n` is a boundary.
pub open spec fn byte_prefix(s: Seq<char>, n: int) -> Seq<char> {
    s.take(chars_in_bytes(s, n))
}

/// `s` cut at every `'\n'` (an empty `s` is one empty piece). Apart from a last
/// empty piece, these are the lines of `str::lines` before a `'\r'` that ends them is
/// removed.
pub open spec fn split_lines(s: Seq<char>) -> Seq<Seq<char>>
    decreases s.len(),
{
    if s.len() == 0 {
        seq![Seq::empty()]
    } else {
        let p = split_lines(s.drop_last());
        if s.last() == '\n' {
            p.push(Seq::empty())
        } else {
            p.update(p.len() - 1, p.last().push(s.last()))
        }
    }
}

// ── Lemmas ───────────────────────────────────────────────────────────────────

/// Cutting text at newlines gives at least one piece.
pub proof fn lemma_split_lines_nonempty(s: Seq<char>)
    ensures
        split_lines(s).len() >= 1,
    decreases s.len(),
{
    if s.len() > 0 {
        lemma_split_lines_nonempty(s.drop_last());
    }
}

/// The byte length of a prefix grows by at least one with each character.
pub proof fn lemma_utf8_len_prefix_strict(s: Seq<char>, i: int, j: int)
    requires
        0 <= i <= j <= s.len(),
    ensures
        utf8_len(s.take(i)) + (j - i) <= utf8_len(s.take(j)),
    decreases j - i,
{
    if i < j {
        lemma_utf8_len_prefix_strict(s, i, j - 1);
        assert(s.take(j).drop_last() =~= s.take(j - 1));
    }
}

/// A prefix with a given byte length is unique.
pub proof fn lemma_byte_prefix_unique(s: Seq<char>, k: int, n: int)
    requires
        0 <= k <= s.len(),
        utf8_len(s.take(k)) == n,
    ensures
        is_byte_boundary(s, n),
        chars_in_bytes(s, n) == k,
        byte_prefix(s, n) == s.take(k),
{
    assert(is_byte_boundary(s, n));
    let c = chars_in_bytes(s, n);
    if c < k {
        lemma_utf8_len_prefix_strict(s, c, k);
    } else if k < c {
        lemma_utf8_len_prefix_strict(s, k, c);
    }
}

/// The line that runs from `i` ends at `i` when `i` is the end of `s` or holds a `'\n'`.
proof fn lemma_line_end_at(s: Seq<char>, i: int)
    requires
        0 <= i <= s.len(),
        i == s.len() || s[i] == '\n',
    ensures
        line_end(s, i) == i,
{
}

// ── Executable helpers ───────────────────────────────────────────────────────

/// `String::push`: appends one character.
#[verifier::external_body]
fn string_push(s: &mut String, c: char)
    ensures
        final(s)@ == old(s)@.push(c),
{
    s.push(c);
}

/// Whether two string slices hold the same characters.
pub fn str_eq(a: &str, b: &str) -> (r: bool)
    ensures
        r == (a@ == b@),
{
    let ca = chars_of(a);
    let cb = chars_of(b);
    if ca.len() != cb.len() {
        return false;
    }
    let mut i: usize = 0;
    while i < ca.len()
        invariant
            i <= ca@.len(),
            ca@.len() == cb@.len(),
            ca@ == a@,
            cb@ == b@,
            ca@.take(i as int) == cb@.take(i as int),
        decreases ca.len() - i,
    {
        if ca[i] != cb[i] {
            proof {
                assert(ca@[i as int] != cb@[i as int]);
            }
            return false;
        }
        proof {
            assert(ca@.take(i + 1) =~= ca@.take(i as int).push(ca@[i as int]));
            assert(cb@.take(i + 1) =~= cb@.take(i as int).push(cb@[i as int]));
        }
        i = i + 1;
    }
    proof {
        assert(ca@.take(ca@.len() as int) =~= ca@);
        assert(cb@.take(cb@.len() as int) =~= cb@);
    }
    true
}

/// Whether `c` is Unicode whitespace.
pub fn char_is_ws(c: char) -> (r: bool)
    ensures
        r == is_ws(c),
{
    let u = c as u32;
    (0x09 <= u && u <= 0x0D) || u == 0x20 || u == 0x85 || u == 0xA0 || u == 0x1680 || (0x2000
        <= u && u <= 0x200A) || u == 0x2028 || u == 0x2029 || u == 0x202F || u == 0x205F || u
        == 0x3000
}

/// The characters of `s`, one per element.
pub fn chars_of(s: &str) -> (r: Vec<char>)
    ensures
        r@ == s@,
{
    let mut out: Vec<char> = Vec::new();
    for c in it: s.chars()
        invariant
            out@ == it.seq().take(it.index() as int),
    {
        out.push(c);
    }
    out
}

/// A string holding `cs[from..to]`.
pub fn string_of_range(cs: &Vec<char>, from: usize, to: usize) -> (r: String)
    requires
        from <= to <= cs@.len(),
    ensures
        r@ == cs@.subrange(from as int, to as int),
{
    let mut out = String::new();
    let mut i = from;
    while i < to
        invariant
            from <= i <= to <= cs@.len(),
            out@ == cs@.subrange(from as int, i as int),
        decreases to - i,
    {
        string_push(&mut out, cs[i]);
        i = i + 1;
        proof {
            assert(out@ =~= cs@.subrange(from as int, i as int));
        }
    }
    out
}

/// Appends the characters of `s` to `out`.
pub fn push_str(out: &mut String, s: &str)
    ensures
        final(out)@ == old(out)@ + s@,
{
    out.append(s);
}

/// The bounds `(a, b)` of the trimmed part of `cs[lo..hi]`.
pub fn trim_range(cs: &Vec<char>, lo: usize, hi: usize) -> (r: (usize, usize))
    requires
        lo <= hi <= cs@.len(),
    ensures
        lo <= r.0 <= r.1 <= hi,
        cs@.subrange(r.0 as int, r.1 as int) == trim(cs@.subrange(lo as int, hi as int)),
{
    let mut a = lo;
    while a < hi && char_is_ws(cs[a])
        invariant
            lo <= a <= hi <= cs@.len(),
            trim_start(cs@.subrange(lo as int, hi as int)) == trim_start(
                cs@.subrange(a as int, hi as int),
            ),
        decreases hi - a,
    {
        proof {
            let t = cs@.subrange(a as int, hi as int);
            assert(t.drop_first() =~= cs@.subrange(a + 1, hi as int));
        }
        a = a + 1;
    }
    proof {
        let t = cs@.subrange(a as int, hi as int);
        assert(trim_start(t) == t);
    }
    let mut b = hi;
    while b > a && char_is_ws(cs[b - 1])
        invariant
            lo <= a <= b <= hi <= cs@.len(),
            trim_end(cs@.subrange(a as int, hi as int)) == trim_end(
                cs@.subrange(a as int, b as int),
            ),
        decreases b - a,
    {
        proof {
            let t = cs@.subrange(a as int, b as int);
            assert(t.drop_last() =~= cs@.subrange(a as int, b - 1));
        }
        b = b - 1;
    }
    proof {
        let t = cs@.subrange(a as int, b as int);
        assert(trim_end(t) == t);
    }
    (a, b)
}

/// The trimmed first line of `s`, cut to `max_len` characters with an ellipsis
/// appended when it is longer.
pub fn first_line(s: &str, max_len: usize) -> (r: String)
    ensures
        r@ == spec_first_line(s@, max_len as int),
{
    let cs = chars_of(s);
    let mut e: usize = 0;
    while e < cs.len() && cs[e] != '\n'
        invariant
            e <= cs@.len(),
            line_end(cs@, 0) == line_end(cs@, e as int),
        decreases cs.len() - e,
    {
        e = e + 1;
    }
    proof {
        lemma_line_end_at(cs@, e as int);
        assert(cs@.take(e as int) =~= cs@.subrange(0, e as int));
    }
    let (a, b) = trim_range(&cs, 0, e);
    if b - a > max_len {
        let mut out = string_of_range(&cs, a, a + max_len);
        string_push(&mut out, '\u{2026}');
        proof {
            assert(cs@.subrange(a as int, b as int).take(max_len as int) =~= cs@.subrange(
                a as int,
                a + max_len,
            ));
        }
        out
    } else {
        string_of_range(&cs, a, b)
    }
}

/// The parts joined with `sep` between each two neighbours.
pub fn join_strings(parts: &Vec<String>, sep: &str) -> (r: String)
    ensures
        r@ == join(parts@.map_values(|p: String| p@), sep@),
{
    let ghost views = parts@.map_values(|p: String| p@);
    let mut out = String::new();
    let mut i: usize = 0;
    while i < parts.len()
        invariant
            i <= parts@.len(),
            views == parts@.map_values(|p: String| p@),
            out@ == join(views.take(i as int), sep@),
        decreases parts.len() - i,
    {
        proof {
            assert(views.take(i + 1).drop_last() =~= views.take(i as int));
        }
        if i > 0 {
            push_str(&mut out, sep);
        }
        push_str(&mut out, parts[i].as_str());
        proof {
            if i == 0 {
                assert(out@ =~= views.take(1)[0]);
            }
        }
        i = i + 1;
    }
    proof {
        assert(views.take(parts@.len() as int) =~= views);
    }
    out
}

/// The decimal digit for `d < 10`.
fn digit(d: usize) -> (c: char)
    requires
        d < 10,
    ensures
        c == digit_char(d as nat),
{
    if d == 0 {
        '0'
    } else if d == 1 {
        '1'
    } else if d == 2 {
        '2'
    } else if d == 3 {
        '3'
    } else if d == 4 {
        '4'
    } else if d == 5 {
        '5'
    } else if d == 6 {
        '6'
    } else if d == 7 {
        '7'
    } else if d == 8 {
        '8'
    } else {
        '9'
    }
}

/// Appends the decimal notation of `n` to `out`.
pub fn push_decimal(out: &mut String, n: usize)
    ensures
        final(out)@ == old(out)@ + decimal(n as nat),
    decreases n,
{
    if n >= 10 {
        push_decimal(out, n / 10);
    }
    string_push(out, digit(n % 10));
    proof {
        assert(final(out)@ =~= old(out)@ + decimal(n as nat));
    }
}

/// The byte width of the UTF-8 encoding of `c`.
fn char_utf8_width(c: char) -> (w: usize)
    ensures
        w == utf8_width(c),
{
    let u = c as u32;
    if u < 0x80 {
        1
    } else if u < 0x800 {
        2
    } else if u < 0x10000 {
        3
    } else {
        4
    }
}

/// `Some(k)` where the first `k` characters of `cs` take exactly `n` bytes, `None`
/// where byte offset `n` is no character boundary.
pub fn chars_for_bytes(cs: &Vec<char>, n: usize) -> (r: Option<usize>)
    requires
        n <= usize::MAX - 4,
    ensures
        r matches Some(k) ==> k <= cs@.len() && utf8_len(cs@.take(k as int)) == n
            && chars_in_bytes(cs@, n as int) == k,
        r is Some <==> is_byte_boundary(cs@, n as int),
{
    let mut k: usize = 0;
    let mut acc: usize = 0;
    while k < cs.len() && acc < n
        invariant
            k <= cs@.len(),
            n <= usize::MAX - 4,
            acc == utf8_len(cs@.take(k as int)),
            acc <= n + 4,
            k > 0 ==> utf8_len(cs@.take(k - 1)) < n,
        decreases cs.len() - k,
    {
        proof {
            assert(cs@.take(k + 1).drop_last() =~= cs@.take(k as int));
        }
        acc = acc + char_utf8_width(cs[k]);
        k = k + 1;
    }
    if acc == n {
        proof {
            lemma_byte_prefix_unique(cs@, k as int, n as int);
        }
        Some(k)
    } else {
        proof {
            assert forall|j: int| 0 <= j <= cs@.len() implies #[trigger] utf8_len(cs@.take(j))
                != n by {
                if j < k {
                    lemma_utf8_len_prefix_strict(cs@, j, k as int - 1);
                } else if j > k {
                    lemma_utf8_len_prefix_strict(cs@, k as int, j);
                }
            }
        }
        None
    }
}

/// Whether the UTF-8 encoding of `cs` takes more than `n` bytes.
pub fn utf8_len_exceeds(cs: &Vec<char>, n: usize) -> (r: bool)
    requires
        n <= usize::MAX - 4,
    ensures
        r == (utf8_len(cs@) > n),
{
    let mut k: usize = 0;
    let mut acc: usize = 0;
    while k < cs.len() && acc <= n
        invariant
            k <= cs@.len(),
            n <= usize::MAX - 4,
            acc == utf8_len(cs@.take(k as int)),
            acc <= n + 4,
        decreases cs.len() - k,
    {
        proof {
            assert(cs@.take(k + 1).drop_last() =~= cs@.take(k as int));
        }
        acc = acc + char_utf8_width(cs[k]);
        k = k + 1;
    }
    proof {
        lemma_utf8_len_prefix_strict(cs@, k as int, cs@.len() as int);
        assert(cs@.take(cs@.len() as int) =~= cs@);
    }
    acc > n
}

// ── Laws ─────────────────────────────────────────────────────────────────────

proof fn lemma_trim_start_suffix(s: Seq<char>)
    ensures
        exists|j: int| 0 <= j <= s.len() && trim_start(s) == s.subrange(j, s.len() as int),
    decreases s.len(),
{
    if s.len() > 0 && is_ws(s[0]) {
        lemma_trim_start_suffix(s.drop_first());
        let j = choose|j: int|
            0 <= j <= s.drop_first().len() && trim_start(s.drop_first()) == s.drop_first().subrange(
                j,
                s.drop_first().len() as int,
            );
        assert(s.drop_first().subrange(j, s.drop_first().len() as int) =~= s.subrange(
            j + 1,
            s.len() as int,
        ));
    } else {
        assert(s.subrange(0, s.len() as int) =~= s);
    }
}

proof fn lemma_trim_end_prefix(s: Seq<char>)
    ensures
        exists|j: int| 0 <= j <= s.len() && trim_end(s) == s.subrange(0, j),
    decreases s.len(),
{
    if s.len() > 0 && is_ws(s.last()) {
        lemma_trim_end_prefix(s.drop_last());
        let j = choose|j: int|
            0 <= j <= s.drop_last().len() && trim_end(s.drop_last()) == s.drop_last().subrange(0, j);
        assert(s.drop_last().subrange(0, j) =~= s.subrange(0, j));
    } else {
        assert(s.subrange(0, s.len() as int) =~= s);
    }
}

/// Trimming keeps a stretch of the text: what it keeps was in the text.
pub proof fn lemma_trim_within(s: Seq<char>)
    ensures
        exists|a: int, b: int| 0 <= a <= b <= s.len() && trim(s) == s.subrange(a, b),
{
    lemma_trim_start_suffix(s);
    let a = choose|j: int| 0 <= j <= s.len() && trim_start(s) == s.subrange(j, s.len() as int);
    let t = trim_start(s);
    lemma_trim_end_prefix(t);
    let b = choose|j: int| 0 <= j <= t.len() && trim_end(t) == t.subrange(0, j);
    assert(t.subrange(0, b) =~= s.subrange(a, a + b));
}

/// The summary of a text is one line: it holds no line break and at most
/// `max_len` characters plus the ellipsis.
pub proof fn law_first_line_is_one_short_line(s: Seq<char>, max_len: int)
    requires
        max_len >= 0,
    ensures
        spec_first_line(s, max_len).len() <= max_len + 1,
        forall|i: int|
            0 <= i < spec_first_line(s, max_len).len() ==> spec_first_line(s, max_len)[i] != '\n',
{
    let e = line_end(s, 0);
    lemma_line_end_bounds(s, 0);
    let head = s.take(e);
    lemma_trim_within(head);
    let (a, b) = choose|a: int, b: int|
        0 <= a <= b <= head.len() && trim(head) == head.subrange(a, b);
    let line = trim(head);
    assert forall|i: int| 0 <= i < line.len() implies line[i] != '\n' by {
        assert(line[i] == head[a + i]);
        assert(head[a + i] == s[a + i]);
    }
    if line.len() > max_len {
        let r = spec_first_line(s, max_len);
        assert forall|i: int| 0 <= i < r.len() implies r[i] != '\n' by {
            if i < max_len {
                assert(r[i] == line[i]);
            }
        }
    }
}

/// Every position before the end of the first line holds no line break.
proof fn lemma_line_end_bounds(s: Seq<char>, i: int)
    requires
        0 <= i <= s.len(),
    ensures
        i <= line_end(s, i) <= s.len(),
        forall|j: int| i <= j < line_end(s, i) ==> s[j] != '\n',
    decreases s.len() - i,
{
    if i < s.len() && s[i] != '\n' {
        lemma_line_end_bounds(s, i + 1);
    }
}

/// Without a line break from `i` on, the line from `i` runs to the end.
pub proof fn lemma_line_end_no_break(s: Seq<char>, i: int)
    requires
        0 <= i <= s.len(),
        forall|j: int| i <= j < s.len() ==> s[j] != '\n',
    ensures
        line_end(s, i) == s.len(),
    decreases s.len() - i,
{
    if i < s.len() {
        lemma_line_end_no_break(s, i + 1);
    }
}

/// A one-line text without surrounding whitespace and within `max_len` characters
/// is its own summary.
pub proof fn law_short_line_is_its_own_summary(s: Seq<char>, max_len: int)
    requires
        forall|j: int| 0 <= j < s.len() ==> s[j] != '\n',
        s.len() <= max_len,
        s.len() > 0 ==> !is_ws(s[0]) && !is_ws(s.last()),
    ensures
        spec_first_line(s, max_len) == s,
{
    lemma_line_end_no_break(s, 0);
    assert(s.take(s.len() as int) =~= s);
    assert(trim_start(s) == s);
    assert(trim_end(s) == s);
}

proof fn lemma_trim_start_shape(s: Seq<char>)
    ensures
        exists|j: int|
            0 <= j <= s.len() && trim_start(s) == s.subrange(j, s.len() as int) && (forall|i: int|
                0 <= i < j ==> is_ws(#[trigger] s[i])) && (j < s.len() ==> !is_ws(s[j])),
    decreases s.len(),
{
    if s.len() > 0 && is_ws(s[0]) {
        let t = s.drop_first();
        lemma_trim_start_shape(t);
        let j = choose|j: int|
            0 <= j <= t.len() && trim_start(t) == t.subrange(j, t.len() as int) && (forall|i: int|
                0 <= i < j ==> is_ws(#[trigger] t[i])) && (j < t.len() ==> !is_ws(t[j]));
        assert(t.subrange(j, t.len() as int) =~= s.subrange(j + 1, s.len() as int));
        assert forall|i: int| 0 <= i < j + 1 implies is_ws(#[trigger] s[i]) by {
            if i > 0 {
                assert(s[i] == t[i - 1]);
            }
        }
        assert(j + 1 < s.len() ==> s[j + 1] == t[j]);
    } else {
        assert(s.subrange(0, s.len() as int) =~= s);
    }
}

proof fn lemma_trim_end_shape(s: Seq<char>)
    ensures
        exists|j: int|
            0 <= j <= s.len() && trim_end(s) == s.subrange(0, j) && (forall|i: int|
                j <= i < s.len() ==> is_ws(#[trigger] s[i])) && (j > 0 ==> !is_ws(s[j - 1])),
    decreases s.len(),
{
    if s.len() > 0 && is_ws(s.last()) {
        let t = s.drop_last();
        lemma_trim_end_shape(t);
        let j = choose|j: int|
            0 <= j <= t.len() && trim_end(t) == t.subrange(0, j) && (forall|i: int|
                j <= i < t.len() ==> is_ws(#[trigger] t[i])) && (j > 0 ==> !is_ws(t[j - 1]));
        assert(t.subrange(0, j) =~= s.subrange(0, j));
        assert forall|i: int| j <= i < s.len() implies is_ws(#[trigger] s[i]) by {
            if i < t.len() {
                assert(s[i] == t[i]);
            }
        }
    } else {
        assert(s.subrange(0, s.len() as int) =~= s);
    }
}

/// The summary of a text is its first line with the whitespace around it removed:
/// the positions `a <= b <= e` returned, `e` the end of the first line, have only
/// whitespace before `a` and from `b` to `e`, and the stretch `a..b` neither starts
/// nor ends with whitespace; the summary is that stretch, or its first `max_len`
/// characters followed by an ellipsis when it is longer.
pub proof fn law_first_line_is_trimmed_first_line(s: Seq<char>, max_len: int) -> (r: (
    int,
    int,
    int,
))
    requires
        max_len >= 0,
    ensures
        0 <= r.0 <= r.1 <= r.2 <= s.len(),
        r.2 == s.len() || s[r.2] == '\n',
        forall|i: int| 0 <= i < r.2 ==> #[trigger] s[i] != '\n',
        forall|i: int| 0 <= i < r.0 ==> is_ws(#[trigger] s[i]),
        forall|i: int| r.1 <= i < r.2 ==> is_ws(#[trigger] s[i]),
        r.0 < r.1 ==> !is_ws(s[r.0]) && !is_ws(s[r.1 - 1]),
        spec_first_line(s, max_len) == if r.1 - r.0 > max_len {
            s.subrange(r.0, r.0 + max_len).push('\u{2026}')
        } else {
            s.subrange(r.0, r.1)
        },
{
    let e = line_end(s, 0);
    lemma_line_end_bounds(s, 0);
    if e < s.len() {
        lemma_line_end_stops(s, 0);
    }
    let head = s.take(e);
    lemma_trim_start_shape(head);
    let a = choose|j: int|
        0 <= j <= head.len() && trim_start(head) == head.subrange(j, head.len() as int) && (forall|
            i: int,
        | 0 <= i < j ==> is_ws(#[trigger] head[i])) && (j < head.len() ==> !is_ws(head[j]));
    let t = trim_start(head);
    lemma_trim_end_shape(t);
    let c = choose|j: int|
        0 <= j <= t.len() && trim_end(t) == t.subrange(0, j) && (forall|i: int|
            j <= i < t.len() ==> is_ws(#[trigger] t[i])) && (j > 0 ==> !is_ws(t[j - 1]));
    let b = a + c;
    assert(t.subrange(0, c) =~= s.subrange(a, b));
    assert forall|i: int| 0 <= i < a implies is_ws(#[trigger] s[i]) by {
        assert(head[i] == s[i]);
    }
    assert forall|i: int| b <= i < e implies is_ws(#[trigger] s[i]) by {
        assert(t[i - a] == s[i]);
    }
    if a < b {
        assert(head[a] == s[a]);
        assert(t[c - 1] == s[b - 1]);
    }
    let line = s.subrange(a, b);
    assert(first_line_text(s) == line);
    if b - a > max_len {
        assert(line.take(max_len) =~= s.subrange(a, a + max_len));
    }
    (a, b, e)
}

/// The line from `i` ends at a line break when it ends before the end of the text.
proof fn lemma_line_end_stops(s: Seq<char>, i: int)
    requires
        0 <= i <= s.len(),
        line_end(s, i) < s.len(),
    ensures
        s[line_end(s, i)] == '\n',
    decreases s.len() - i,
{
    if i < s.len() && s[i] != '\n' {
        lemma_line_end_stops(s, i + 1);
    }
}

/// What follows the last `'/'`: it holds no `'/'`, and the text is some prefix that
/// is empty or ends with `'/'`, followed by it.
pub proof fn law_after_last_slash(s: Seq<char>)
    ensures
        forall|i: int| 0 <= i < after_last_slash(s).len() ==> #[trigger] after_last_slash(s)[i]
            != '/',
        after_last_slash(s).len() <= s.len(),
        ({
            let k = s.len() - after_last_slash(s).len();
            &&& s.subrange(k, s.len() as int) == after_last_slash(s)
            &&& k == 0 || s[k - 1] == '/'
        }),
    decreases s.len(),
{
    if s.len() > 0 {
        law_after_last_slash(s.drop_last());
        let r = after_last_slash(s.drop_last());
        let d = s.drop_last();
        let k = d.len() - r.len();
        if s.last() != '/' {
            assert(d.subrange(k, d.len() as int) == r);
            assert(s.subrange(k, s.len() as int) =~= r.push(s.last()));
            if k > 0 {
                assert(s[k - 1] == d[k - 1]);
            }
        } else {
            assert(s.subrange(s.len() as int, s.len() as int) =~= Seq::<char>::empty());
        }
    }
}

} // verus!
