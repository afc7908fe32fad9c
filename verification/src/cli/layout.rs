//! Laying out text for the terminal: numbers in decimal, left-aligned columns, the
//! lines of a text and abbreviated object ids.
use vstd::prelude::*;
use vstd::utf8::{decode_utf8, encode_utf8, is_char_boundary, encode_utf8_decode_utf8};
use crate::domain::text::{concat_str, substring, to_chars};

verus! {

/// The character of a decimal digit.
pub open spec fn digit_char(d: nat) -> char {
    if d == 0 {
        '0'
    } else if d == 1 {
        '1'
    } else if d == 2 {
        '2'
    } else if d == 3 {
        '3'
    } else if d == 4 {
        '4'
    } else if d == 5 {
        '5'
    } else if d == 6 {
        '6'
    } else if d == 7 {
        '7'
    } else if d == 8 {
        '8'
    } else {
        '9'
    }
}

/// A number written in decimal, without leading zeros.
pub open spec fn decimal(n: nat) -> Seq<char>
    decreases n,
{
    if n < 10 {
        seq![digit_char(n)]
    } else {
        decimal(n / 10) + seq![digit_char(n % 10)]
    }
}

fn digit_str(d: usize) -> (r: &'static str)
    requires
        d < 10,
    ensures
        r@ == seq![digit_char(d as nat)],
{
    proof {
        reveal_strlit("0");
        reveal_strlit("1");
        reveal_strlit("2");
        reveal_strlit("3");
        reveal_strlit("4");
        reveal_strlit("5");
        reveal_strlit("6");
        reveal_strlit("7");
        reveal_strlit("8");
        reveal_strlit("9");
    }
    if d == 0 {
        "0"
    } else if d == 1 {
        "1"
    } else if d == 2 {
        "2"
    } else if d == 3 {
        "3"
    } else if d == 4 {
        "4"
    } else if d == 5 {
        "5"
    } else if d == 6 {
        "6"
    } else if d == 7 {
        "7"
    } else if d == 8 {
        "8"
    } else {
        "9"
    }
}

/// A number written in decimal, as `Display` writes it.
pub fn decimal_string(n: usize) -> (r: String)
    ensures
        r@ == decimal(n as nat),
    decreases n,
{
    if n < 10 {
        digit_str(n).to_string()
    } else {
        let head = decimal_string(n / 10);
        head.concat(digit_str(n % 10))
    }
}

/// Text left-aligned in a column of `width` characters: padded with spaces on the right
/// when shorter, unchanged otherwise (as the format `{:<width}` does).
pub open spec fn padded(s: Seq<char>, width: nat) -> Seq<char> {
    if s.len() >= width {
        s
    } else {
        s + Seq::new((width - s.len()) as nat, |i: int| ' ')
    }
}

/// Left-align text in a column of `width` characters.
pub fn pad_right(s: &str, width: usize) -> (r: String)
    ensures
        r@ == padded(s@, width as nat),
{
    let n = s.unicode_len();
    let mut r = s.to_string();
    if n >= width {
        return r;
    }
    let mut k: usize = n;
    assert(r@ =~= s@ + Seq::new((k - n) as nat, |i: int| ' '));
    while k < width
        invariant
            n == s@.len(),
            n <= k <= width,
            r@ == s@ + Seq::new((k - n) as nat, |i: int| ' '),
        decreases width - k,
    {
        proof {
            reveal_strlit(" ");
        }
        r = r.concat(" ");
        k = k + 1;
        assert(r@ =~= s@ + Seq::new((k - n) as nat, |i: int| ' '));
    }
    r
}

/// The index of the first line feed in `s`, or its length when there is none.
pub open spec fn line_end(s: Seq<char>) -> nat
    decreases s.len(),
{
    if s.len() == 0 {
        0
    } else if s[0] == '\n' {
        0
    } else {
        1 + line_end(s.drop_first())
    }
}

/// A line without the carriage return that ended it, if one did.
pub open spec fn strip_cr(l: Seq<char>) -> Seq<char> {
    if l.len() > 0 && l.last() == '\r' {
        l.drop_last()
    } else {
        l
    }
}

proof fn lemma_line_end(s: Seq<char>)
    ensures
        line_end(s) <= s.len(),
        line_end(s) < s.len() ==> s[line_end(s) as int] == '\n',
        forall|j: int| 0 <= j < line_end(s) ==> s[j] != '\n',
    decreases s.len(),
{
    if s.len() > 0 && s[0] != '\n' {
        lemma_line_end(s.drop_first());
        assert forall|j: int| 0 <= j < line_end(s) implies s[j] != '\n' by {
            if j > 0 {
                assert(s[j] == s.drop_first()[j - 1]);
            }
        }
    }
}

/// The lines of a text, as `str::lines` yields them: split at each line feed, a
/// carriage return just before a line feed dropped, and no empty line after a final
/// line feed.
pub open spec fn text_lines(s: Seq<char>) -> Seq<Seq<char>>
    decreases s.len(),
{
    if s.len() == 0 {
        seq![]
    } else {
        let i = line_end(s);
        if i >= s.len() {
            seq![s]
        } else {
            seq![strip_cr(s.take(i as int))] + text_lines(s.skip(i as int + 1))
        }
    }
}

/// The views of a sequence of strings.
pub open spec fn lines_view(v: Seq<String>) -> Seq<Seq<char>> {
    v.map_values(|s: String| s@)
}

/// The lines of a text.
pub fn split_lines(text: &str) -> (r: Vec<String>)
    ensures
        lines_view(r@) == text_lines(text@),
{
    let cs = to_chars(text);
    let n = cs.len();
    let mut r: Vec<String> = Vec::new();
    let mut start: usize = 0;
    assert(text@.skip(0) =~= text@);
    assert(lines_view(r@) =~= Seq::<Seq<char>>::empty());
    assert(lines_view(r@) + text_lines(text@.skip(0)) =~= text_lines(text@));
    while start < n
        invariant
            cs@ == text@,
            n == text@.len(),
            start <= n,
            lines_view(r@) + text_lines(text@.skip(start as int)) == text_lines(text@),
        decreases n - start,
    {
        let ghost rest = text@.skip(start as int);
        proof {
            lemma_line_end(rest);
        }
        let mut i: usize = start;
        while i < n && cs[i] != '\n'
            invariant
                cs@ == text@,
                n == text@.len(),
                start <= i <= n,
                rest == text@.skip(start as int),
                forall|j: int| start <= j < i ==> text@[j] != '\n',
            decreases n - i,
        {
            i = i + 1;
        }
        proof {
            assert forall|j: int| 0 <= j < i - start implies rest[j] != '\n' by {
                assert(rest[j] == text@[start + j]);
            }
            if i < n {
                assert(rest[i - start] == '\n');
            }
            assert(line_end(rest) == i - start) by {
                if line_end(rest) < i - start {
                    assert(rest[line_end(rest) as int] == '\n');
                } else if line_end(rest) > i - start {
                    assert(rest[i - start] != '\n');
                }
            }
        }
        let ghost before = r@;
        if i < n {
            let end = if i > start && cs[i - 1] == '\r' {
                i - 1
            } else {
                i
            };
            let line = substring(text, start, end);
            proof {
                let l = rest.take(i - start);
                assert(text@.subrange(start as int, i as int) =~= l);
                if i > start && cs@[i - 1] == '\r' {
                    assert(strip_cr(l) =~= text@.subrange(start as int, end as int));
                } else {
                    assert(strip_cr(l) =~= l);
                }
                assert(rest.skip(i - start + 1) =~= text@.skip(i + 1));
                assert(text_lines(rest) == seq![strip_cr(l)] + text_lines(text@.skip(i + 1)));
            }
            r.push(line);
            start = i + 1;
            assert(lines_view(r@) =~= lines_view(before).push(line@));
            assert(lines_view(r@) + text_lines(text@.skip(start as int)) =~= lines_view(before)
                + text_lines(rest));
        } else {
            let line = substring(text, start, n);
            proof {
                assert(text@.subrange(start as int, n as int) =~= rest);
                assert(text_lines(rest) == seq![rest]);
                assert(text@.skip(n as int) =~= Seq::<char>::empty());
            }
            r.push(line);
            start = n;
            assert(lines_view(r@) =~= lines_view(before).push(line@));
            assert(lines_view(r@) + text_lines(text@.skip(start as int)) =~= lines_view(before)
                + text_lines(rest));
        }
    }
    assert(text@.skip(start as int) =~= Seq::<char>::empty());
    assert(lines_view(r@) + text_lines(text@.skip(start as int)) =~= lines_view(r@));
    r
}

/// An object id as shown to people: its first eight bytes when they end on a character
/// boundary (as `str::get(..8)` gives them), otherwise the whole id.
pub open spec fn short_id(id: Seq<char>) -> Seq<char> {
    let bytes = encode_utf8(id);
    if 8 <= bytes.len() && is_char_boundary(bytes, 8) {
        decode_utf8(bytes.subrange(0, 8))
    } else {
        id
    }
}

/// Abbreviate an object id for display.
pub fn abbreviate_id(id: &str) -> (r: String)
    ensures
        r@ == short_id(id@),
{
    proof {
        vstd::utf8::encode_utf8_valid_utf8(id@);
    }
    if id.is_char_boundary(8) {
        let (head, _) = id.split_at(8);
        let r = head.to_owned();
        proof {
            encode_utf8_decode_utf8(r@);
            assert(encode_utf8(r@) == encode_utf8(id@).subrange(0, 8));
        }
        r
    } else {
        id.to_owned()
    }
}

/// The number of bytes of a character's UTF-8 encoding.
pub open spec fn utf8_width(c: char) -> nat {
    encode_utf8(seq![c]).len()
}

proof fn lemma_encode_concat(a: Seq<char>, b: Seq<char>)
    ensures
        encode_utf8(a + b) == encode_utf8(a) + encode_utf8(b),
    decreases a.len(),
{
    if a.len() > 0 {
        assert((a + b).drop_first() =~= a.drop_first() + b);
        lemma_encode_concat(a.drop_first(), b);
        assert(encode_utf8(a + b) =~= encode_utf8(a) + encode_utf8(b));
    } else {
        assert(a + b =~= b);
        assert(encode_utf8(a) =~= Seq::<u8>::empty());
        assert(encode_utf8(a) + encode_utf8(b) =~= encode_utf8(b));
    }
}

fn char_width(c: char) -> (r: usize)
    ensures
        r == utf8_width(c),
        1 <= r <= 4,
{
    proof {
        vstd::utf8::char_is_scalar(c);
        let one: Seq<char> = seq![c];
        assert(one.drop_first() =~= Seq::<char>::empty());
        assert(encode_utf8(Seq::<char>::empty()) =~= Seq::<u8>::empty());
        assert(one[0] == c);
        assert(encode_utf8(one) =~= vstd::utf8::encode_scalar(c as u32) + encode_utf8(one.drop_first()));
        assert(encode_utf8(one) =~= vstd::utf8::encode_scalar(c as u32));
    }
    let v = c as u32;
    if v <= 0x7F {
        1
    } else if v <= 0x7FF {
        2
    } else if v <= 0xFFFF {
        3
    } else {
        4
    }
}

/// Whether a text's UTF-8 encoding is shorter than `limit` bytes.
pub fn utf8_len_below(s: &str, limit: usize) -> (r: bool)
    ensures
        r == (encode_utf8(s@).len() < limit),
{
    if limit == 0 {
        return false;
    }
    let n = s.unicode_len();
    let mut acc: usize = 0;
    let mut i: usize = 0;
    assert(s@.take(0) =~= Seq::<char>::empty());
    while i < n
        invariant
            n == s@.len(),
            i <= n,
            acc == encode_utf8(s@.take(i as int)).len(),
            acc < limit,
        decreases n - i,
    {
        let c = s.get_char(i);
        let w = char_width(c);
        proof {
            assert(s@.take(i + 1) =~= s@.take(i as int) + seq![c]);
            lemma_encode_concat(s@.take(i as int), seq![c]);
        }
        if w >= limit - acc {
            proof {
                assert(s@ =~= s@.take(i + 1) + s@.skip(i + 1));
                lemma_encode_concat(s@.take(i + 1), s@.skip(i + 1));
            }
            return false;
        }
        acc = acc + w;
        i = i + 1;
    }
    assert(s@.take(n as int) =~= s@);
    true
}

} // verus!
