use vstd::prelude::*;
use vstd::utf8::encode_utf8;

verus! {

/// The characters with Unicode's `White_Space` property.
pub open spec fn is_white(c: char) -> bool {
    ||| ('\t' <= c && c <= '\r')
    ||| c == ' '
    ||| c == '\u{85}'
    ||| c == '\u{a0}'
    ||| c == '\u{1680}'
    ||| ('\u{2000}' <= c && c <= '\u{200a}')
    ||| c == '\u{2028}'
    ||| c == '\u{2029}'
    ||| c == '\u{202f}'
    ||| c == '\u{205f}'
    ||| c == '\u{3000}'
}

/// The UTF-8 length of a text.
pub open spec fn byte_len(s: Seq<char>) -> nat {
    encode_utf8(s).len()
}

/// The views of a vector of strings.
pub open spec fn strings_view(v: Seq<String>) -> Seq<Seq<char>> {
    v.map_values(|s: String| s@)
}

/// Splitting a prefix into words: the finished words, and the word in progress.
pub open spec fn words_state(s: Seq<char>) -> (Seq<Seq<char>>, Seq<char>)
    decreases s.len(),
{
    if s.len() == 0 {
        (Seq::empty(), Seq::empty())
    } else {
        let (done, cur) = words_state(s.drop_last());
        let c = s.last();
        if is_white(c) {
            if cur.len() > 0 {
                (done.push(cur), Seq::empty())
            } else {
                (done, cur)
            }
        } else {
            (done, cur.push(c))
        }
    }
}

/// The maximal runs of non-whitespace characters of `s`, in order.
pub open spec fn words(s: Seq<char>) -> Seq<Seq<char>> {
    let (done, cur) = words_state(s);
    if cur.len() > 0 {
        done.push(cur)
    } else {
        done
    }
}

/// Greedy filling of lines with the given words: the finished lines and the line in progress.
pub open spec fn wrap_state(ws: Seq<Seq<char>>, max_width: int) -> (Seq<Seq<char>>, Seq<char>)
    decreases ws.len(),
{
    if ws.len() == 0 {
        (Seq::empty(), Seq::empty())
    } else {
        let (lines, cur) = wrap_state(ws.drop_last(), max_width);
        let w = ws.last();
        if cur.len() == 0 {
            (lines, w)
        } else if byte_len(cur) + 1 + byte_len(w) <= max_width {
            (lines, cur + seq![' '] + w)
        } else {
            (lines.push(cur), w)
        }
    }
}

/// The words of `text` put on lines greedily: a word joins the current line,
/// after one space, while the line's UTF-8 length stays within `max_width`.
/// A text without words but not empty stays one line.
pub open spec fn wrapped(text: Seq<char>, max_width: int) -> Seq<Seq<char>> {
    let (lines, cur) = wrap_state(words(text), max_width);
    let out = if cur.len() > 0 {
        lines.push(cur)
    } else {
        lines
    };
    if out.len() == 0 && text.len() > 0 {
        seq![text]
    } else {
        out
    }
}

/// Splitting a prefix at a separator: the finished pieces, and the piece in progress.
pub open spec fn split_state(s: Seq<char>, sep: char) -> (Seq<Seq<char>>, Seq<char>)
    decreases s.len(),
{
    if s.len() == 0 {
        (Seq::empty(), Seq::empty())
    } else {
        let (done, cur) = split_state(s.drop_last(), sep);
        if s.last() == sep {
            (done.push(cur), Seq::empty())
        } else {
            (done, cur.push(s.last()))
        }
    }
}

/// The pieces of `s` between occurrences of `sep` (one more than there are separators).
pub open spec fn split_at_char(s: Seq<char>, sep: char) -> Seq<Seq<char>> {
    let (done, cur) = split_state(s, sep);
    done.push(cur)
}

/// The texts of `parts` with `sep` between each two.
pub open spec fn joined(parts: Seq<Seq<char>>, sep: Seq<char>) -> Seq<char>
    decreases parts.len(),
{
    if parts.len() == 0 {
        Seq::empty()
    } else if parts.len() == 1 {
        parts[0]
    } else {
        joined(parts.drop_last(), sep) + sep + parts.last()
    }
}

/// `s` without its leading whitespace.
pub open spec fn trim_front(s: Seq<char>) -> Seq<char>
    decreases s.len(),
{
    if s.len() > 0 && is_white(s[0]) {
        trim_front(s.drop_first())
    } else {
        s
    }
}

/// `s` without its trailing whitespace.
pub open spec fn trim_back(s: Seq<char>) -> Seq<char>
    decreases s.len(),
{
    if s.len() > 0 && is_white(s.last()) {
        trim_back(s.drop_last())
    } else {
        s
    }
}

/// `s` without leading and trailing whitespace.
pub open spec fn trimmed(s: Seq<char>) -> Seq<char> {
    trim_back(trim_front(s))
}

/// `needle` occurs in `hay` as a run of consecutive characters.
pub open spec fn has_substring(hay: Seq<char>, needle: Seq<char>) -> bool {
    exists|i: int|
        0 <= i && i + needle.len() <= hay.len() && #[trigger] hay.subrange(i, i + needle.len())
            == needle
}

/// What std's `str::to_lowercase` returns for a text.
pub uninterp spec fn lowercase(s: Seq<char>) -> Seq<char>;

/// Whether `c` has the `White_Space` property (what std's `char::is_whitespace` tells).
fn is_whitespace(c: char) -> (r: bool)
    ensures
        r == is_white(c),
{
    ('\t' <= c && c <= '\r') || c == ' ' || c == '\u{85}' || c == '\u{a0}' || c == '\u{1680}' || ('\u{2000}'
        <= c && c <= '\u{200a}') || c == '\u{2028}' || c == '\u{2029}' || c == '\u{202f}' || c == '\u{205f}'
        || c == '\u{3000}'
}

/// std's `str::to_lowercase`.
#[verifier::external_body]
pub(crate) fn to_lowercase(s: &str) -> (r: String)
    ensures
        r@ == lowercase(s@),
{
    s.to_lowercase()
}

/// What std's `str::to_uppercase` returns for a text.
pub uninterp spec fn uppercase(s: Seq<char>) -> Seq<char>;

/// std's `str::to_uppercase`.
#[verifier::external_body]
pub(crate) fn to_uppercase(s: &str) -> (r: String)
    ensures
        r@ == uppercase(s@),
{
    s.to_uppercase()
}

/// Whether `needle` occurs in `hay` as a run of consecutive characters (what
/// std's `str::contains` tells for a text pattern).
pub(crate) fn contains_text(hay: &str, needle: &str) -> (r: bool)
    ensures
        r == has_substring(hay@, needle@),
{
    let h = chars_of(hay);
    let n = chars_of(needle);
    let hl = h.len();
    let nl = n.len();
    if nl > hl {
        proof {
            if has_substring(hay@, needle@) {
                let k = choose|k: int|
                    0 <= k && k + needle@.len() <= hay@.len() && #[trigger] hay@.subrange(k, k + needle@.len())
                        == needle@;
            }
        }
        return false;
    }
    let mut i: usize = 0;
    while i <= hl - nl
        invariant
            h@ == hay@,
            n@ == needle@,
            hl == h@.len(),
            nl == n@.len(),
            nl <= hl,
            i <= hl - nl + 1,
            forall|k: int| 0 <= k < i ==> #[trigger] hay@.subrange(k, k + nl) != needle@,
        decreases hl - i,
    {
        let mut j: usize = 0;
        while j < nl
            invariant
                h@ == hay@,
                n@ == needle@,
                hl == h@.len(),
                nl == n@.len(),
                i + nl <= hl,
                j <= nl,
                forall|t: int| 0 <= t < j ==> h@[i + t] == n@[t],
            ensures
                j <= nl,
                forall|t: int| 0 <= t < j ==> h@[i + t] == n@[t],
                j < nl ==> h@[i + j] != n@[j as int],
            decreases nl - j,
        {
            if h[i + j] != n[j] {
                break;
            }
            j = j + 1;
        }
        if j == nl {
            assert(hay@.subrange(i as int, i + nl) =~= needle@);
            return true;
        }
        assert(hay@.subrange(i as int, i + nl)[j as int] == hay@[i + j]);
        i = i + 1;
    }
    proof {
        if has_substring(hay@, needle@) {
            let k = choose|k: int|
                0 <= k && k + needle@.len() <= hay@.len() && #[trigger] hay@.subrange(k, k + needle@.len())
                    == needle@;
            assert(k < i);
        }
    }
    false
}

/// The UTF-8 length of one character.
fn char_byte_len(c: char) -> (n: u128)
    ensures
        n as int == byte_len(seq![c]),
        1 <= n <= 4,
{
    proof {
        vstd::utf8::char_is_scalar(c);
        assert(seq![c].drop_first() =~= Seq::<char>::empty());
        assert(seq![c][0] == c);
        assert(vstd::utf8::encode_utf8(Seq::<char>::empty()) =~= Seq::<u8>::empty());
        assert(vstd::utf8::encode_utf8(seq![c]) =~= vstd::utf8::encode_scalar(c as u32));
    }
    let v = c as u32;
    if v <= 0x7F {
        1
    } else if v <= 0x7FF {
        2
    } else if v <= 0xFFFF {
        3
    } else {
        4
    }
}

/// The length of a text in UTF-8 bytes (what std's `str::len` tells).
fn byte_length(s: &str) -> (r: u128)
    ensures
        r == byte_len(s@),
        r <= 4 * (usize::MAX as int),
{
    let cs = chars_of(s);
    let len = cs.len();
    let mut total: u128 = 0;
    let mut i: usize = 0;
    while i < len
        invariant
            cs@ == s@,
            len == cs@.len(),
            i <= len,
            total == byte_len(s@.take(i as int)),
            total <= 4 * i,
        decreases len - i,
    {
        let c = cs[i];
        let w = char_byte_len(c);
        proof {
            crate::laws::lemma_byte_len_concat(s@.take(i as int), seq![c]);
            assert(s@.take(i as int) + seq![c] =~= s@.take(i as int + 1));
        }
        total = total + w;
        i = i + 1;
    }
    assert(s@.take(cs@.len() as int) =~= s@);
    total
}

/// The characters of `s`, in order.
pub fn chars_of(s: &str) -> (v: Vec<char>)
    ensures
        v@ == s@,
{
    let mut v: Vec<char> = Vec::new();
    for c in it: s.chars()
        invariant
            v@.len() == it.index(),
            forall|j: int| 0 <= j < v@.len() ==> v@[j] == it.seq()[j],
    {
        v.push(c);
    }
    assert(v@ =~= s@);
    v
}

/// The whitespace-separated words of `s` (what std's `split_whitespace` yields).
pub fn split_words(s: &str) -> (out: Vec<String>)
    ensures
        strings_view(out@) == words(s@),
{
    let cs = chars_of(s);
    let n = cs.len();
    let mut out: Vec<String> = Vec::new();
    let mut in_word = false;
    let mut start: usize = 0;
    let mut i: usize = 0;
    while i < n
        invariant
            cs@ == s@,
            n == s@.len(),
            i <= n,
            start <= i,
            in_word ==> start < i,
            words_state(s@.take(i as int)) == (
                strings_view(out@),
                if in_word {
                    s@.subrange(start as int, i as int)
                } else {
                    Seq::<char>::empty()
                },
            ),
        decreases n - i,
    {
        let ghost pre = s@.take(i as int);
        assert(s@.take(i as int + 1).drop_last() =~= pre);
        assert(s@.take(i as int + 1).last() == s@[i as int]);
        let c = cs[i];
        if is_whitespace(c) {
            if in_word {
                let w = String::from_str(s.substring_char(start, i));
                out.push(w);
                assert(strings_view(out@) =~= words_state(pre).0.push(s@.subrange(start as int, i as int)));
                in_word = false;
            }
        } else {
            if !in_word {
                start = i;
                in_word = true;
                assert(Seq::<char>::empty().push(c) =~= s@.subrange(i as int, i as int + 1));
            } else {
                assert(s@.subrange(start as int, i as int).push(c) =~= s@.subrange(
                    start as int,
                    i as int + 1,
                ));
            }
        }
        i = i + 1;
    }
    assert(s@.take(n as int) =~= s@);
    if in_word {
        let w = String::from_str(s.substring_char(start, n));
        out.push(w);
        assert(strings_view(out@) =~= words_state(s@).0.push(s@.subrange(start as int, n as int)));
    } else {
        assert(strings_view(out@) =~= words(s@));
    }
    out
}

/// Wraps the words of `text` onto lines of at most `max_width` UTF-8 bytes; a
/// word longer than that gets a line of its own.
pub fn wrap_text(text: &str, max_width: usize) -> (lines: Vec<String>)
    ensures
        strings_view(lines@) == wrapped(text@, max_width as int),
{
    let ws = split_words(text);
    let ghost all = words(text@);
    let mut lines: Vec<String> = Vec::new();
    let mut current = String::new();
    let mut i: usize = 0;
    while i < ws.len()
        invariant
            strings_view(ws@) == all,
            all == words(text@),
            i <= ws@.len(),
            wrap_state(all.take(i as int), max_width as int) == (strings_view(lines@), current@),
        decreases ws@.len() - i,
    {
        let ghost pre = all.take(i as int);
        assert(all.take(i as int + 1).drop_last() =~= pre);
        assert(all.take(i as int + 1).last() == ws@[i as int]@);
        let word = &ws[i];
        assert(all[i as int] == ws@[i as int]@);
        if current.as_str().is_empty() {
            current = word.clone();
            assert(wrap_state(all.take(i as int + 1), max_width as int) == (strings_view(lines@), current@));
        } else {
            let cur_len = byte_length(current.as_str());
            let word_len = byte_length(word.as_str());
            if cur_len + 1 + word_len <= max_width as u128 {
                current.append(" ");
                current.append(word.as_str());
                proof {
                    reveal_strlit(" ");
                }
                assert(current@ =~= wrap_state(pre, max_width as int).1 + seq![' '] + ws@[i as int]@);
            } else {
                let done = current;
                lines.push(done);
                current = word.clone();
                assert(strings_view(lines@) =~= wrap_state(pre, max_width as int).0.push(
                    wrap_state(pre, max_width as int).1,
                ));
            }
        }
        i = i + 1;
    }
    assert(all.take(ws@.len() as int) =~= all);
    if !current.as_str().is_empty() {
        lines.push(current);
        assert(strings_view(lines@) =~= wrap_state(all, max_width as int).0.push(
            wrap_state(all, max_width as int).1,
        ));
    }
    if lines.len() == 0 && !text.is_empty() {
        lines.push(String::from_str(text));
        assert(strings_view(lines@) =~= seq![text@]);
    }
    lines
}

proof fn lemma_trim_front(s: Seq<char>, a: int)
    requires
        0 <= a <= s.len(),
        forall|j: int| 0 <= j < a ==> is_white(#[trigger] s[j]),
        a == s.len() || !is_white(s[a]),
    ensures
        trim_front(s) == s.subrange(a, s.len() as int),
    decreases a,
{
    if a == 0 {
        assert(s.subrange(0, s.len() as int) =~= s);
    } else {
        let t = s.drop_first();
        assert forall|j: int| 0 <= j < a - 1 implies is_white(#[trigger] t[j]) by {
            assert(t[j] == s[j + 1]);
        }
        if a - 1 < t.len() {
            assert(t[a - 1] == s[a]);
        }
        lemma_trim_front(t, a - 1);
        assert(t.subrange(a - 1, t.len() as int) =~= s.subrange(a, s.len() as int));
    }
}

proof fn lemma_trim_back(t: Seq<char>, b: int)
    requires
        0 <= b <= t.len(),
        forall|j: int| b <= j < t.len() ==> is_white(#[trigger] t[j]),
        b == 0 || !is_white(t[b - 1]),
    ensures
        trim_back(t) == t.subrange(0, b),
    decreases t.len() - b,
{
    if b == t.len() {
        assert(t.subrange(0, b) =~= t);
    } else {
        let u = t.drop_last();
        assert forall|j: int| b <= j < u.len() implies is_white(#[trigger] u[j]) by {
            assert(u[j] == t[j]);
        }
        if b > 0 {
            assert(u[b - 1] == t[b - 1]);
        }
        lemma_trim_back(u, b);
        assert(u.subrange(0, b) =~= t.subrange(0, b));
    }
}

/// `s` without leading and trailing whitespace (what std's `str::trim` returns).
pub fn trim_text(s: &str) -> (r: String)
    ensures
        r@ == trimmed(s@),
{
    let cs = chars_of(s);
    let n = cs.len();
    let mut a: usize = 0;
    while a < n
        invariant
            cs@ == s@,
            n == s@.len(),
            a <= n,
            forall|j: int| 0 <= j < a ==> is_white(#[trigger] s@[j]),
        ensures
            a <= n,
            forall|j: int| 0 <= j < a ==> is_white(#[trigger] s@[j]),
            a == n || !is_white(s@[a as int]),
        decreases n - a,
    {
        if !is_whitespace(cs[a]) {
            break;
        }
        a = a + 1;
    }
    let mut b: usize = n;
    while b > a
        invariant
            cs@ == s@,
            n == s@.len(),
            a <= b <= n,
            forall|j: int| b <= j < n ==> is_white(#[trigger] s@[j]),
        ensures
            a <= b <= n,
            forall|j: int| b <= j < n ==> is_white(#[trigger] s@[j]),
            b == a || !is_white(s@[b - 1]),
        decreases b - a,
    {
        if !is_whitespace(cs[b - 1]) {
            break;
        }
        b = b - 1;
    }
    proof {
        lemma_trim_front(s@, a as int);
        let t = s@.subrange(a as int, n as int);
        assert forall|j: int| b - a <= j < t.len() implies is_white(#[trigger] t[j]) by {
            assert(t[j] == s@[j + a]);
        }
        if b > a {
            assert(t[b - a - 1] == s@[b - 1]);
        }
        lemma_trim_back(t, b - a);
        assert(t.subrange(0, b - a) =~= s@.subrange(a as int, b as int));
    }
    String::from_str(s.substring_char(a, b))
}

/// The pieces of `s` between line feeds (what std's `split('\n')` yields).
pub fn split_lines(s: &str) -> (out: Vec<String>)
    ensures
        strings_view(out@) == split_at_char(s@, '\n'),
{
    let cs = chars_of(s);
    let n = cs.len();
    let mut out: Vec<String> = Vec::new();
    let mut start: usize = 0;
    let mut i: usize = 0;
    while i < n
        invariant
            cs@ == s@,
            n == s@.len(),
            start <= i <= n,
            split_state(s@.take(i as int), '\n') == (
                strings_view(out@),
                s@.subrange(start as int, i as int),
            ),
        decreases n - i,
    {
        let ghost pre = s@.take(i as int);
        assert(s@.take(i as int + 1).drop_last() =~= pre);
        assert(s@.take(i as int + 1).last() == s@[i as int]);
        if cs[i] == '\n' {
            out.push(String::from_str(s.substring_char(start, i)));
            assert(strings_view(out@) =~= split_state(pre, '\n').0.push(s@.subrange(start as int, i as int)));
            start = i + 1;
            assert(s@.subrange(start as int, i as int + 1) =~= Seq::<char>::empty());
        } else {
            assert(s@.subrange(start as int, i as int).push(cs@[i as int]) =~= s@.subrange(
                start as int,
                i as int + 1,
            ));
        }
        i = i + 1;
    }
    assert(s@.take(n as int) =~= s@);
    out.push(String::from_str(s.substring_char(start, n)));
    assert(strings_view(out@) =~= split_at_char(s@, '\n'));
    out
}

/// The texts of `parts` with a line feed between each two (what std's `join("\n")` returns).
pub fn join_lines(parts: &Vec<String>) -> (s: String)
    ensures
        s@ == joined(strings_view(parts@), seq!['\n']),
{
    let ghost all = strings_view(parts@);
    let mut s = String::new();
    let mut i: usize = 0;
    while i < parts.len()
        invariant
            all == strings_view(parts@),
            i <= parts@.len(),
            s@ == joined(all.take(i as int), seq!['\n']),
        decreases parts@.len() - i,
    {
        assert(all.take(i as int + 1).drop_last() =~= all.take(i as int));
        assert(all.take(i as int + 1).last() == parts@[i as int]@);
        if i > 0 {
            s.append("\n");
            proof {
                reveal_strlit("\n");
            }
        } else {
            assert(all.take(1) =~= seq![parts@[0]@]);
        }
        s.append(parts[i].as_str());
        i = i + 1;
    }
    assert(all.take(parts@.len() as int) =~= all);
    s
}

/// The decimal digits of `n`, most significant first.
pub open spec fn decimal(n: nat) -> Seq<char>
    decreases n,
{
    if n < 10 {
        seq![digit_char(n)]
    } else {
        decimal(n / 10).push(digit_char(n % 10))
    }
}

/// The character of a decimal digit.
pub open spec fn digit_char(d: nat) -> char {
    ('0' as u8 + d) as char
}

/// An integer in decimal, with a leading `-` when it is negative.
pub open spec fn signed_decimal(n: int) -> Seq<char> {
    if n < 0 {
        seq!['-'] + decimal((-n) as nat)
    } else {
        decimal(n as nat)
    }
}

fn digit_text(d: u64) -> (s: &'static str)
    requires
        d < 10,
    ensures
        s@ == seq![digit_char(d as nat)],
{
    proof {
        reveal_strlit("0");
        reveal_strlit("1");
        reveal_strlit("2");
        reveal_strlit("3");
        reveal_strlit("4");
        reveal_strlit("5");
        reveal_strlit("6");
        reveal_strlit("7");
        reveal_strlit("8");
        reveal_strlit("9");
    }
    match d {
        0 => "0",
        1 => "1",
        2 => "2",
        3 => "3",
        4 => "4",
        5 => "5",
        6 => "6",
        7 => "7",
        8 => "8",
        _ => "9",
    }
}

pub(crate) fn natural_text(n: u64) -> (s: String)
    ensures
        s@ == decimal(n as nat),
    decreases n,
{
    if n < 10 {
        String::from_str(digit_text(n))
    } else {
        let mut s = natural_text(n / 10);
        s.append(digit_text(n % 10));
        assert(s@ =~= decimal((n / 10) as nat).push(digit_char((n % 10) as nat)));
        s
    }
}

/// An integer as text, the way `{}` formats it.
pub fn int_text(n: i64) -> (s: String)
    ensures
        s@ == signed_decimal(n as int),
{
    if n < 0 {
        let magnitude: u64 = (0i128 - n as i128) as u64;
        let mut s = String::from_str("-");
        proof {
            reveal_strlit("-");
        }
        let digits = natural_text(magnitude);
        s.append(digits.as_str());
        s
    } else {
        natural_text(n as u64)
    }
}

} // verus!
