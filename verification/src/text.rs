//! Small verified helpers on text: comparison, decimal numerals and padding
//! to a column width.

use vstd::prelude::*;
use vstd::string::*;
use vstd::utf8::*;

verus! {

/// The character of a decimal digit.
pub open spec fn digit_char(d: int) -> char {
    if d == 0 {
        '0'
    } else if d == 1 {
        '1'
    } else if d == 2 {
        '2'
    } else if d == 3 {
        '3'
    } else if d == 4 {
        '4'
    } else if d == 5 {
        '5'
    } else if d == 6 {
        '6'
    } else if d == 7 {
        '7'
    } else if d == 8 {
        '8'
    } else {
        '9'
    }
}

/// The decimal numeral of `n`, without sign or leading zeros.
pub open spec fn decimal_text(n: nat) -> Seq<char>
    decreases n,
{
    if n < 10 {
        seq![digit_char(n as int)]
    } else {
        decimal_text(n / 10).push(digit_char((n % 10) as int))
    }
}

/// The texts of a list of strings.
pub open spec fn texts(items: Seq<String>) -> Seq<Seq<char>> {
    Seq::new(items.len(), |i: int| items[i]@)
}

/// `n` spaces.
pub open spec fn spaces(n: nat) -> Seq<char> {
    Seq::new(n, |i: int| ' ')
}

/// `text` preceded by as many spaces as it is short of `width` characters.
pub open spec fn padded_start(text: Seq<char>, width: nat) -> Seq<char> {
    if text.len() >= width {
        text
    } else {
        spaces((width - text.len()) as nat) + text
    }
}

/// `text` followed by as many spaces as it is short of `width` characters.
pub open spec fn padded_end(text: Seq<char>, width: nat) -> Seq<char> {
    if text.len() >= width {
        text
    } else {
        text + spaces((width - text.len()) as nat)
    }
}

/// Whether two texts hold the same characters.
pub fn same_text(a: &str, b: &str) -> (same: bool)
    ensures
        same == (a@ == b@),
{
    let x = a.as_bytes();
    let y = b.as_bytes();
    proof {
        encode_utf8_decode_utf8(a@);
        encode_utf8_decode_utf8(b@);
    }
    if x.len() != y.len() {
        return false;
    }
    let mut i: usize = 0;
    while i < x.len()
        invariant
            i <= x.len(),
            x.len() == y.len(),
            x@ == encode_utf8(a@),
            y@ == encode_utf8(b@),
            forall|k: int| 0 <= k < i ==> x@[k] == y@[k],
        decreases x.len() - i,
    {
        if x[i] != y[i] {
            return false;
        }
        i += 1;
    }
    assert(x@ =~= y@);
    true
}

/// The one-character text of a decimal digit.
pub fn digit_text(d: u8) -> (text: &'static str)
    requires
        d < 10,
    ensures
        text@ == seq![digit_char(d as int)],
{
    proof {
        reveal_strlit("0");
        reveal_strlit("1");
        reveal_strlit("2");
        reveal_strlit("3");
        reveal_strlit("4");
        reveal_strlit("5");
        reveal_strlit("6");
        reveal_strlit("7");
        reveal_strlit("8");
        reveal_strlit("9");
    }
    let text = if d == 0 {
        "0"
    } else if d == 1 {
        "1"
    } else if d == 2 {
        "2"
    } else if d == 3 {
        "3"
    } else if d == 4 {
        "4"
    } else if d == 5 {
        "5"
    } else if d == 6 {
        "6"
    } else if d == 7 {
        "7"
    } else if d == 8 {
        "8"
    } else {
        "9"
    };
    assert(text@ =~= seq![digit_char(d as int)]);
    text
}

/// The decimal numeral of `n`.
pub fn decimal(n: u64) -> (text: String)
    ensures
        text@ == decimal_text(n as nat),
    decreases n,
{
    if n < 10 {
        String::from_str(digit_text(n as u8))
    } else {
        let mut text = decimal(n / 10);
        text.append(digit_text((n % 10) as u8));
        assert(text@ =~= decimal_text(n as nat));
        text
    }
}

/// A text of `n` spaces.
pub fn blank(n: usize) -> (text: String)
    ensures
        text@ == spaces(n as nat),
{
    let mut text = String::new();
    let mut i: usize = 0;
    proof {
        reveal_strlit(" ");
    }
    assert(text@ =~= spaces(0));
    while i < n
        invariant
            i <= n,
            text@ == spaces(i as nat),
            " "@.len() == 1,
            " "@[0] == ' ',
        decreases n - i,
    {
        text.append(" ");
        i += 1;
        assert(text@ =~= spaces(i as nat));
    }
    text
}

/// Right-aligns `text` in a column of `width` characters.
pub fn pad_start(text: &str, width: usize) -> (padded: String)
    ensures
        padded@ == padded_start(text@, width as nat),
{
    let len: usize = text.unicode_len();
    if len >= width {
        String::from_str(text)
    } else {
        let mut padded = blank(width - len);
        padded.append(text);
        padded
    }
}

/// Left-aligns `text` in a column of `width` characters.
pub fn pad_end(text: &str, width: usize) -> (padded: String)
    ensures
        padded@ == padded_end(text@, width as nat),
{
    let len: usize = text.unicode_len();
    let mut padded = String::from_str(text);
    if len < width {
        let fill = blank(width - len);
        padded.append(fill.as_str());
    }
    padded
}

/// Padding fills a text up to the width and never shortens it.
pub proof fn lemma_padding_widths(text: Seq<char>, width: nat)
    ensures
        padded_start(text, width).len() == if text.len() >= width { text.len() } else { width },
        padded_end(text, width).len() == if text.len() >= width { text.len() } else { width },
{
}

/// The parts of `parts`, with one space between neighbours.
pub open spec fn joined(parts: Seq<Seq<char>>) -> Seq<char>
    decreases parts.len(),
{
    if parts.len() == 0 {
        Seq::empty()
    } else if parts.len() == 1 {
        parts[0]
    } else {
        joined(parts.drop_last()) + seq![' '] + parts.last()
    }
}

/// `unit` written `n` times.
pub open spec fn repeated(unit: Seq<char>, n: nat) -> Seq<char>
    decreases n,
{
    if n == 0 {
        Seq::empty()
    } else {
        repeated(unit, (n - 1) as nat) + unit
    }
}

/// Joins `parts` with single spaces.
pub fn join_spaced(parts: &Vec<String>) -> (text: String)
    ensures
        text@ == joined(texts(parts@)),
{
    let mut text = String::new();
    let mut i: usize = 0;
    proof {
        reveal_strlit(" ");
        assert(" "@ =~= seq![' ']);
        assert(texts(parts@).take(0) =~= Seq::<Seq<char>>::empty());
    }
    while i < parts.len()
        invariant
            i <= parts@.len(),
            " "@ == seq![' '],
            text@ == joined(texts(parts@).take(i as int)),
        decreases parts@.len() - i,
    {
        proof {
            assert(texts(parts@).take(i + 1).drop_last() =~= texts(parts@).take(i as int));
            assert(texts(parts@).take(i + 1).last() == parts@[i as int]@);
            if i == 0 {
                assert(texts(parts@).take(1)[0] == parts@[0]@);
                assert(Seq::<char>::empty() + parts@[0]@ =~= parts@[0]@);
            }
        }
        if i > 0 {
            text.append(" ");
        }
        text.append(parts[i].as_str());
        i += 1;
    }
    assert(texts(parts@).take(i as int) =~= texts(parts@));
    text
}

/// Writes `unit` `n` times.
pub fn repeat_text(unit: &str, n: usize) -> (text: String)
    ensures
        text@ == repeated(unit@, n as nat),
{
    let mut text = String::new();
    let mut i: usize = 0;
    while i < n
        invariant
            i <= n,
            text@ == repeated(unit@, i as nat),
        decreases n - i,
    {
        text.append(unit);
        i += 1;
    }
    text
}

} // verus!
