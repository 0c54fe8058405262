//! Text primitives: ordering of strings, whitespace trimming, line splitting,
//! decimal rendering, and path joining.

use vstd::prelude::*;

verus! {

/// Lexicographic "strictly less" on character sequences, by code point.
/// This is the order `<` gives on Rust strings (UTF-8 byte order and
/// code-point order agree).
pub open spec fn text_lt(a: Seq<char>, b: Seq<char>) -> bool
    decreases a.len(),
{
    if a.len() == 0 {
        b.len() > 0
    } else if b.len() == 0 {
        false
    } else if a[0] != b[0] {
        (a[0] as int) < (b[0] as int)
    } else {
        text_lt(a.drop_first(), b.drop_first())
    }
}

/// `a` sorts at or after `b`.
pub open spec fn text_ge(a: Seq<char>, b: Seq<char>) -> bool {
    !text_lt(a, b)
}

pub proof fn lemma_text_lt_irreflexive(a: Seq<char>)
    ensures
        !text_lt(a, a),
    decreases a.len(),
{
    if a.len() > 0 {
        lemma_text_lt_irreflexive(a.drop_first());
    }
}

pub proof fn lemma_text_lt_asymmetric(a: Seq<char>, b: Seq<char>)
    ensures
        text_lt(a, b) ==> !text_lt(b, a),
    decreases a.len(),
{
    if a.len() > 0 && b.len() > 0 && a[0] == b[0] {
        lemma_text_lt_asymmetric(a.drop_first(), b.drop_first());
    }
}

pub proof fn lemma_text_lt_total(a: Seq<char>, b: Seq<char>)
    ensures
        a != b ==> text_lt(a, b) || text_lt(b, a),
    decreases a.len(),
{
    if a.len() > 0 && b.len() > 0 && a[0] == b[0] {
        lemma_text_lt_total(a.drop_first(), b.drop_first());
        if a.drop_first() == b.drop_first() {
            assert(a =~= seq![a[0]] + a.drop_first());
            assert(b =~= seq![b[0]] + b.drop_first());
        }
    } else if a.len() > 0 && b.len() > 0 {
        assert(a[0] as int != b[0] as int);
    } else if a.len() == 0 && b.len() == 0 {
        assert(a =~= b);
    }
}

pub proof fn lemma_text_lt_transitive(a: Seq<char>, b: Seq<char>, c: Seq<char>)
    requires
        text_lt(a, b),
        text_lt(b, c),
    ensures
        text_lt(a, c),
    decreases a.len(),
{
    if a.len() > 0 && b.len() > 0 && c.len() > 0 && a[0] == b[0] && b[0] == c[0] {
        lemma_text_lt_transitive(a.drop_first(), b.drop_first(), c.drop_first());
    }
}

/// `text_ge` is transitive.
pub proof fn lemma_text_ge_transitive(a: Seq<char>, b: Seq<char>, c: Seq<char>)
    requires
        text_ge(a, b),
        text_ge(b, c),
    ensures
        text_ge(a, c),
{
    if text_lt(a, c) {
        lemma_text_lt_total(a, b);
        lemma_text_lt_total(b, c);
        if a == b {
        } else if b == c {
        } else {
            lemma_text_lt_transitive(c, b, a);
            lemma_text_lt_asymmetric(a, c);
        }
    }
}

/// Compares two strings: whether `a` sorts strictly before `b`.
pub fn str_less(a: &str, b: &str) -> (r: bool)
    ensures
        r == text_lt(a@, b@),
{
    let la = a.unicode_len();
    let lb = b.unicode_len();
    let mut i: usize = 0;
    assert(a@.skip(0) =~= a@);
    assert(b@.skip(0) =~= b@);
    while i < la && i < lb
        invariant
            la == a@.len(),
            lb == b@.len(),
            i <= la,
            i <= lb,
            text_lt(a@, b@) == text_lt(a@.skip(i as int), b@.skip(i as int)),
        decreases la - i,
    {
        let ca = a.get_char(i);
        let cb = b.get_char(i);
        if ca != cb {
            return (ca as u32) < (cb as u32);
        }
        assert(a@.skip(i as int).drop_first() =~= a@.skip(i + 1));
        assert(b@.skip(i as int).drop_first() =~= b@.skip(i + 1));
        i = i + 1;
    }
    i == la && i < lb
}

/// The Unicode `White_Space` property, which `char::is_whitespace` tests.
pub open spec fn is_white(c: char) -> bool {
    let v = c as int;
    ||| 0x09 <= v <= 0x0d
    ||| v == 0x20
    ||| v == 0x85
    ||| v == 0xa0
    ||| v == 0x1680
    ||| 0x2000 <= v <= 0x200a
    ||| v == 0x2028
    ||| v == 0x2029
    ||| v == 0x202f
    ||| v == 0x205f
    ||| v == 0x3000
}

pub fn char_is_white(c: char) -> (r: bool)
    ensures
        r == is_white(c),
{
    let v = c as u32;
    (0x09 <= v && v <= 0x0d) || v == 0x20 || v == 0x85 || v == 0xa0 || v == 0x1680 || (0x2000 <= v
        && v <= 0x200a) || v == 0x2028 || v == 0x2029 || v == 0x202f || v == 0x205f || v == 0x3000
}

/// `s` without its leading white space.
pub open spec fn trim_start(s: Seq<char>) -> Seq<char>
    decreases s.len(),
{
    if s.len() > 0 && is_white(s[0]) {
        trim_start(s.drop_first())
    } else {
        s
    }
}

/// `s` without its trailing white space.
pub open spec fn trim_end(s: Seq<char>) -> Seq<char>
    decreases s.len(),
{
    if s.len() > 0 && is_white(s.last()) {
        trim_end(s.drop_last())
    } else {
        s
    }
}

/// `s` without leading and trailing white space, as `str::trim` gives it.
pub open spec fn trimmed(s: Seq<char>) -> Seq<char> {
    trim_end(trim_start(s))
}

/// Removes leading and trailing white space.
pub fn trim(s: &str) -> (r: String)
    ensures
        r@ == trimmed(s@),
{
    let len = s.unicode_len();
    let mut i: usize = 0;
    assert(s@.skip(0) =~= s@);
    while i < len && char_is_white(s.get_char(i))
        invariant
            len == s@.len(),
            i <= len,
            trim_start(s@) == trim_start(s@.skip(i as int)),
        decreases len - i,
    {
        assert(s@.skip(i as int).drop_first() =~= s@.skip(i + 1));
        i = i + 1;
    }
    assert(i == len ==> s@.skip(i as int) =~= Seq::<char>::empty());
    let mut j: usize = len;
    assert(trim_start(s@) =~= s@.subrange(i as int, len as int));
    while j > i && char_is_white(s.get_char(j - 1))
        invariant
            len == s@.len(),
            i <= j <= len,
            trim_end(trim_start(s@)) == trim_end(s@.subrange(i as int, j as int)),
        decreases j,
    {
        assert(s@.subrange(i as int, j as int).drop_last() =~= s@.subrange(i as int, j - 1));
        j = j - 1;
    }
    let piece = s.substring_char(i, j);
    String::from_str(piece)
}

/// What `String::from_utf8_lossy` makes of a byte sequence: the text it
/// decodes, with each invalid sequence replaced by U+FFFD.
pub uninterp spec fn lossy_utf8(bytes: Seq<u8>) -> Seq<char>;

/// Calls `String::from_utf8_lossy`. Its documentation promises that valid
/// UTF-8 is decoded unchanged; the replacement of invalid sequences is
/// named by `lossy_utf8` and not spelled out.
#[verifier::external_body]
pub fn utf8_lossy(bytes: &[u8]) -> (r: String)
    ensures
        r@ == lossy_utf8(bytes@),
        vstd::utf8::valid_utf8(bytes@) ==> r@ == vstd::utf8::decode_utf8(bytes@),
{
    String::from_utf8_lossy(bytes).into_owned()
}

/// Joins `rest` onto `base` as `PathBuf::join` does on Unix: an absolute
/// `rest` replaces `base`; otherwise a `/` goes between them unless `base`
/// is empty or already ends with one.
pub open spec fn path_join(base: Seq<char>, rest: Seq<char>) -> Seq<char> {
    if rest.len() > 0 && rest[0] == '/' {
        rest
    } else if base.len() > 0 && base.last() != '/' {
        base + seq!['/'] + rest
    } else {
        base + rest
    }
}

pub fn join_path(base: &str, rest: &str) -> (r: String)
    ensures
        r@ == path_join(base@, rest@),
{
    let rest_len = rest.unicode_len();
    let base_len = base.unicode_len();
    if rest_len > 0 && rest.get_char(0) == '/' {
        return String::from_str(rest);
    }
    let mut out = String::from_str(base);
    if base_len > 0 && base.get_char(base_len - 1) != '/' {
        out.append("/");
        proof {
            reveal_strlit("/");
        }
    }
    out.append(rest);
    out
}

/// `path` with a leading `~/` replaced by the home directory, when one is
/// known; otherwise `path` itself.
pub open spec fn tilde_expanded(path: Seq<char>, home: Option<Seq<char>>) -> Seq<char> {
    if path.len() >= 2 && path[0] == '~' && path[1] == '/' && home is Some {
        path_join(home.unwrap(), path.skip(2))
    } else {
        path
    }
}

/// Expands a leading `~/` in `path` to the home directory `home`.
pub fn expand_tilde(path: &str, home: Option<&str>) -> (r: String)
    ensures
        r@ == tilde_expanded(path@, match home {
            Some(h) => Some(h@),
            None => None,
        }),
{
    let len = path.unicode_len();
    if len >= 2 && path.get_char(0) == '~' && path.get_char(1) == '/' {
        match home {
            Some(h) => {
                let rest = path.substring_char(2, len);
                return join_path(h, rest);
            },
            None => {},
        }
    }
    String::from_str(path)
}

/// Position of the first `'\n'` at or after `from`, or `s.len()` when there
/// is none.
pub open spec fn next_newline(s: Seq<char>, from: int) -> int
    decreases s.len() - from,
{
    if from >= s.len() {
        s.len() as int
    } else if s[from] == '\n' {
        from
    } else {
        next_newline(s, from + 1)
    }
}

pub proof fn lemma_next_newline_bounds(s: Seq<char>, from: int)
    requires
        0 <= from,
    ensures
        from <= s.len() ==> from <= next_newline(s, from) <= s.len(),
        from < s.len() && next_newline(s, from) < s.len() ==> s[next_newline(s, from)] == '\n',
        forall|k: int| from <= k < next_newline(s, from) ==> s[k] != '\n',
    decreases s.len() - from,
{
    if from < s.len() && s[from] != '\n' {
        lemma_next_newline_bounds(s, from + 1);
    }
}

/// A line that ended at a `'\n'` loses a final `'\r'`.
pub open spec fn strip_cr(t: Seq<char>) -> Seq<char> {
    if t.len() > 0 && t.last() == '\r' {
        t.drop_last()
    } else {
        t
    }
}

/// The lines of `s` from position `from` on, as `str::lines` yields them:
/// split at `'\n'`, a `'\r'` before the `'\n'` dropped, and no empty line
/// after a final `'\n'`.
pub open spec fn lines_from(s: Seq<char>, from: int) -> Seq<Seq<char>>
    decreases s.len() - from,
{
    if from < 0 || from >= s.len() {
        seq![]
    } else {
        let k = next_newline(s, from);
        proof {
            lemma_next_newline_bounds(s, from);
        }
        if k < s.len() {
            seq![strip_cr(s.subrange(from, k))] + lines_from(s, k + 1)
        } else {
            seq![s.subrange(from, k)]
        }
    }
}

/// The lines of `s`, as `str::lines` yields them.
pub open spec fn text_lines(s: Seq<char>) -> Seq<Seq<char>> {
    lines_from(s, 0)
}

/// Number of bytes that `str::len` reports for text `t`.
pub open spec fn byte_len(t: Seq<char>) -> nat {
    vstd::utf8::encode_utf8(t).len()
}

/// Number of screen rows that one line takes when wrapped at `width`
/// bytes: an empty line takes one row, any other line its byte length
/// divided by `width`, rounded up, and cut to 16 bits.
pub open spec fn line_rows(line: Seq<char>, width: nat) -> int {
    if line.len() == 0 {
        1
    } else {
        let b = byte_len(line);
        ((b / width + if b % width != 0 { 1int } else { 0int }) as u16) as int
    }
}

/// Sum of `line_rows` over `lines`.
pub open spec fn rows_sum(lines: Seq<Seq<char>>, width: nat) -> int
    decreases lines.len(),
{
    if lines.len() == 0 {
        0
    } else {
        line_rows(lines[0], width) + rows_sum(lines.drop_first(), width)
    }
}

proof fn lemma_rows_nonneg(lines: Seq<Seq<char>>, width: nat)
    ensures
        rows_sum(lines, width) >= 0,
    decreases lines.len(),
{
    if lines.len() > 0 {
        lemma_rows_nonneg(lines.drop_first(), width);
    }
}

/// Rows of a line given by its text, its byte length being computed here.
fn rows_of_line(line: &str, width: usize) -> (r: u16)
    requires
        width >= 1,
    ensures
        r == line_rows(line@, width as nat),
{
    if line.is_empty() {
        1
    } else {
        let bytes = line.as_bytes();
        let b = bytes.len();
        assert(b % width != 0 ==> b / width < usize::MAX) by (nonlinear_arith)
            requires
                width >= 1,
        {
            if width == 1 {
                assert(b % width == 0);
            } else {
                assert(b / width <= b / 2);
            }
        }
        let q = if b % width != 0 {
            b / width + 1
        } else {
            b / width
        };
        #[verifier::truncate]
        (q as u16)
    }
}

/// Total rows that the lines of `s` take when wrapped at `width` bytes,
/// or `None` where that total does not fit in 16 bits.
pub fn wrapped_rows(s: &str, width: usize) -> (r: Option<u16>)
    requires
        width >= 1,
    ensures
        r is Some <==> rows_sum(text_lines(s@), width as nat) <= u16::MAX,
        r matches Some(n) ==> n == rows_sum(text_lines(s@), width as nat),
{
    let len = s.unicode_len();
    let mut total: usize = 0;
    let mut line_start: usize = 0;
    let mut last_cr: bool = false;
    let mut pos: usize = 0;
    let ghost w = width as nat;
    for c in it: s.chars()
        invariant
            it.seq() == s@,
            len == s@.len(),
            width >= 1,
            w == width as nat,
            pos == it.index(),
            line_start <= it.index() <= len,
            forall|k: int| line_start <= k < it.index() ==> s@[k] != '\n',
            last_cr == (it.index() > line_start && s@[it.index() - 1] == '\r'),
            total <= u16::MAX,
            total + rows_sum(lines_from(s@, line_start as int), w) == rows_sum(text_lines(s@), w),
    {
        assert(c == s@[pos as int]);
        if c == '\n' {
            proof {
                lemma_next_newline_at(s@, line_start as int, pos as int);
                lemma_next_newline_bounds(s@, line_start as int);
            }
            let end = if last_cr { pos - 1 } else { pos };
            let line = s.substring_char(line_start, end);
            assert(line@ == strip_cr(s@.subrange(line_start as int, pos as int)));
            let r = rows_of_line(line, width);
            proof {
                lemma_rows_nonneg(lines_from(s@, pos + 1), w);
                let rest = lines_from(s@, pos + 1);
                let here = seq![strip_cr(s@.subrange(line_start as int, pos as int))];
                assert(lines_from(s@, line_start as int) == here + rest);
                assert((here + rest).drop_first() =~= rest);
                assert(rows_sum(lines_from(s@, line_start as int), w) == r + rows_sum(rest, w));
            }
            if total + (r as usize) > 65535 {
                return None;
            }
            total = total + r as usize;
            line_start = pos + 1;
            last_cr = false;
        } else {
            last_cr = c == '\r';
        }
        pos = pos + 1;
    }
    if line_start < len {
        proof {
            lemma_next_newline_at(s@, line_start as int, len as int);
        }
        let line = s.substring_char(line_start, len);
        let r = rows_of_line(line, width);
        proof {
            let here = seq![s@.subrange(line_start as int, len as int)];
            assert(lines_from(s@, line_start as int) == here);
            assert(here.drop_first() =~= Seq::<Seq<char>>::empty());
            assert(rows_sum(Seq::<Seq<char>>::empty(), w) == 0);
            assert(line@ == here[0]);
            assert(rows_sum(here, w) == line_rows(here[0], w) + rows_sum(here.drop_first(), w));
            assert(rows_sum(lines_from(s@, line_start as int), w) == r);
        }
        if total + (r as usize) > 65535 {
            return None;
        }
        total = total + r as usize;
    }
    Some(total as u16)
}

/// Where there is no `'\n'` from `from` up to `to`, and `to` is a newline
/// or the end, the next newline after `from` is at `to`.
proof fn lemma_next_newline_at(s: Seq<char>, from: int, to: int)
    requires
        0 <= from <= to <= s.len(),
        forall|k: int| from <= k < to ==> s[k] != '\n',
        to == s.len() || s[to] == '\n',
    ensures
        next_newline(s, from) == to,
    decreases to - from,
{
    if from < to {
        lemma_next_newline_at(s, from + 1, to);
    }
}


/// `text_lt` is the lexicographic order by code point: where two texts
/// first differ, the one with the smaller code point sorts first; a proper
/// prefix sorts before the longer text; a text never sorts before itself.
pub proof fn lemma_text_lt_lexicographic(a: Seq<char>, b: Seq<char>, i: int)
    requires
        0 <= i <= a.len(),
        0 <= i <= b.len(),
        a.take(i) == b.take(i),
    ensures
        i < a.len() && i < b.len() && a[i] != b[i] ==> (text_lt(a, b) <==> (a[i] as int) < (
        b[i] as int)),
        i == a.len() && i < b.len() ==> text_lt(a, b),
        i == a.len() && i == b.len() ==> !text_lt(a, b),
    decreases i,
{
    if i > 0 {
        assert(a[0] == a.take(i)[0]);
        assert(b[0] == b.take(i)[0]);
        assert(a.drop_first().take(i - 1) =~= a.take(i).drop_first());
        assert(b.drop_first().take(i - 1) =~= b.take(i).drop_first());
        lemma_text_lt_lexicographic(a.drop_first(), b.drop_first(), i - 1);
        if i < a.len() {
            assert(a.drop_first()[i - 1] == a[i]);
        }
        if i < b.len() {
            assert(b.drop_first()[i - 1] == b[i]);
        }
    } else if a.len() == 0 && b.len() == 0 {
    }
}

} // verus!
