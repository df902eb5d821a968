//! Small tools on text and bytes: searching, comparing, replacing,
//! decoding, and writing numbers and rules.

use vstd::prelude::*;
use vstd::string::{StrSliceExecFns, StringExecFns};

verus! {

/// `needle` stands in `hay` from place `i` on.
pub open spec fn occurs_at<T>(hay: Seq<T>, needle: Seq<T>, i: int) -> bool {
    &&& 0 <= i
    &&& i + needle.len() <= hay.len()
    &&& hay.subrange(i, i + needle.len()) == needle
}

/// `needle` stands somewhere in `hay`.
pub open spec fn holds<T>(hay: Seq<T>, needle: Seq<T>) -> bool {
    exists|i: int| occurs_at(hay, needle, i)
}

/// The characters of a text, one by one.
pub fn chars_of(text: &str) -> (chars: Vec<char>)
    ensures
        chars@ == text@,
{
    let mut chars: Vec<char> = Vec::new();
    for c in it: text.chars()
        invariant
            it.seq() == text@,
            chars@ == text@.take(it.index() as int),
    {
        chars.push(c);
    }
    chars
}

/// Whether `needle` stands in `hay` from place `i` on.
pub fn starts_at(hay: &[char], needle: &[char], i: usize) -> (b: bool)
    ensures
        b == occurs_at(hay@, needle@, i as int),
{
    if needle.len() > hay.len() || i > hay.len() - needle.len() {
        return false;
    }
    let mut k: usize = 0;
    while k < needle.len()
        invariant
            k <= needle@.len(),
            i + needle@.len() <= hay@.len() <= usize::MAX,
            forall|j: int| 0 <= j < k ==> hay@[i + j] == needle@[j],
        decreases needle@.len() - k,
    {
        if hay[i + k] != needle[k] {
            assert(hay@.subrange(i as int, i + needle@.len())[k as int] == hay@[i + k]);
            return false;
        }
        k += 1;
    }
    assert(hay@.subrange(i as int, i + needle@.len()) =~= needle@);
    true
}

/// Whether `needle` stands somewhere in `hay`.
pub fn holds_text(hay: &[char], needle: &[char]) -> (b: bool)
    ensures
        b == holds(hay@, needle@),
{
    if needle.len() > hay.len() {
        return false;
    }
    let last = hay.len() - needle.len();
    let mut i: usize = 0;
    while i < last
        invariant
            i <= last,
            last == hay@.len() - needle@.len(),
            forall|j: int| 0 <= j < i ==> !occurs_at(hay@, needle@, j),
        decreases last - i,
    {
        if starts_at(hay, needle, i) {
            return true;
        }
        i += 1;
    }
    starts_at(hay, needle, last)
}

/// Whether `item` is one of `items`.
pub fn has_char(items: &[char], item: char) -> (b: bool)
    ensures
        b == items@.contains(item),
{
    let mut i: usize = 0;
    while i < items.len()
        invariant
            i <= items@.len(),
            forall|j: int| 0 <= j < i ==> items@[j] != item,
        decreases items@.len() - i,
    {
        if items[i] == item {
            return true;
        }
        i += 1;
    }
    false
}

/// Whether two byte strings are the same.
pub fn bytes_equal(a: &[u8], b: &[u8]) -> (same: bool)
    ensures
        same == (a@ == b@),
{
    if a.len() != b.len() {
        return false;
    }
    let mut i: usize = 0;
    while i < a.len()
        invariant
            i <= a@.len(),
            a@.len() == b@.len(),
            forall|j: int| 0 <= j < i ==> a@[j] == b@[j],
        decreases a@.len() - i,
    {
        if a[i] != b[i] {
            return false;
        }
        i += 1;
    }
    assert(a@ =~= b@);
    true
}

/// Two texts with the same bytes are the same text.
pub proof fn lemma_same_bytes_same_text(x: Seq<char>, y: Seq<char>)
    ensures
        (vstd::utf8::encode_utf8(x) == vstd::utf8::encode_utf8(y)) <==> (x == y),
{
    vstd::utf8::encode_utf8_decode_utf8(x);
    vstd::utf8::encode_utf8_decode_utf8(y);
}

/// `String::from_utf8`: the text that the bytes spell out, if they are
/// valid UTF-8, and nothing otherwise.
#[verifier::external_body]
pub(crate) fn text_of_bytes(bytes: Vec<u8>) -> (text: Option<String>)
    ensures
        text.is_some() == vstd::utf8::valid_utf8(bytes@),
        text matches Some(s) ==> s@ == vstd::utf8::decode_utf8(bytes@),
{
    match String::from_utf8(bytes) {
        Ok(s) => Some(s),
        Err(_) => None,
    }
}

/// Whether two texts are the same.
pub fn same_text(a: &str, b: &str) -> (same: bool)
    ensures
        same == (a@ == b@),
{
    proof {
        lemma_same_bytes_same_text(a@, b@);
    }
    bytes_equal(a.as_bytes(), b.as_bytes())
}

/// The character of a decimal digit.
pub open spec fn digit(d: nat) -> char {
    if d == 0 {
        '0'
    } else if d == 1 {
        '1'
    } else if d == 2 {
        '2'
    } else if d == 3 {
        '3'
    } else if d == 4 {
        '4'
    } else if d == 5 {
        '5'
    } else if d == 6 {
        '6'
    } else if d == 7 {
        '7'
    } else if d == 8 {
        '8'
    } else {
        '9'
    }
}

/// A number written in decimal digits, without leading zeros.
pub open spec fn decimal(n: nat) -> Seq<char>
    decreases n,
{
    if n < 10 {
        seq![digit(n)]
    } else {
        decimal(n / 10).push(digit(n % 10))
    }
}

fn digit_text(d: usize) -> (text: &'static str)
    requires
        d < 10,
    ensures
        text@ == seq![digit(d as nat)],
{
    proof {
        reveal_strlit("0");
        reveal_strlit("1");
        reveal_strlit("2");
        reveal_strlit("3");
        reveal_strlit("4");
        reveal_strlit("5");
        reveal_strlit("6");
        reveal_strlit("7");
        reveal_strlit("8");
        reveal_strlit("9");
    }
    let text = if d == 0 {
        "0"
    } else if d == 1 {
        "1"
    } else if d == 2 {
        "2"
    } else if d == 3 {
        "3"
    } else if d == 4 {
        "4"
    } else if d == 5 {
        "5"
    } else if d == 6 {
        "6"
    } else if d == 7 {
        "7"
    } else if d == 8 {
        "8"
    } else {
        "9"
    };
    assert(text@ =~= seq![digit(d as nat)]);
    text
}

/// Writes a number in decimal digits.
pub fn decimal_text(n: usize) -> (text: String)
    ensures
        text@ == decimal(n as nat),
    decreases n,
{
    if n < 10 {
        digit_text(n).to_owned()
    } else {
        let front = decimal_text(n / 10);
        let text = front.concat(digit_text(n % 10));
        assert(text@ =~= decimal((n / 10) as nat).push(digit((n % 10) as nat)));
        text
    }
}

/// One character, `n` times.
pub open spec fn repeated(c: char, n: nat) -> Seq<char> {
    Seq::new(n, |i: int| c)
}

/// A line of `n` dashes.
pub fn dashes(n: usize) -> (text: String)
    ensures
        text@ == repeated('-', n as nat),
{
    proof {
        reveal_strlit("-");
    }
    let mut text = String::new();
    let mut i: usize = 0;
    assert(text@ =~= repeated('-', 0));
    while i < n
        invariant
            i <= n,
            text@ == repeated('-', i as nat),
            "-"@ == seq!['-'],
        decreases n - i,
    {
        text.append("-");
        assert(text@ =~= repeated('-', (i + 1) as nat));
        i += 1;
    }
    text
}

/// A text in the middle of a field of dashes of the given width: half of
/// the dashes before it, rounded down, and the rest behind it.  A text
/// that fills the width or more stays as it is.
pub open spec fn centered(text: Seq<char>, width: nat) -> Seq<char> {
    if text.len() >= width {
        text
    } else {
        let pad = (width - text.len()) as nat;
        repeated('-', pad / 2) + text + repeated('-', (pad - pad / 2) as nat)
    }
}

/// Puts a text in the middle of a field of dashes.
pub fn centered_text(text: &str, width: usize) -> (out: String)
    ensures
        out@ == centered(text@, width as nat),
{
    let len = text.unicode_len();
    if len >= width {
        text.to_owned()
    } else {
        let pad = width - len;
        let left = dashes(pad / 2);
        let right = dashes(pad - pad / 2);
        left.concat(text).concat(right.as_str())
    }
}

/// `hay` from place `i` on, with every occurrence of `from` replaced by
/// `to`; occurrences are taken from the left and do not overlap.
pub open spec fn replaced_from(hay: Seq<char>, from: Seq<char>, to: Seq<char>, i: int) -> Seq<char>
    decreases hay.len() - i,
{
    if i < 0 || i >= hay.len() || from.len() == 0 {
        Seq::<char>::empty()
    } else if occurs_at(hay, from, i) {
        to + replaced_from(hay, from, to, i + from.len())
    } else {
        seq![hay[i]] + replaced_from(hay, from, to, i + 1)
    }
}

/// `hay` with every occurrence of `from` replaced by `to`.  An empty
/// `from` occurs nowhere.
pub open spec fn replaced(hay: Seq<char>, from: Seq<char>, to: Seq<char>) -> Seq<char> {
    if from.len() == 0 {
        hay
    } else {
        replaced_from(hay, from, to, 0)
    }
}

/// Replaces every occurrence of `from` in `text` by `to`.
pub fn replace_all(text: &str, from: &str, to: &str) -> (out: String)
    ensures
        out@ == replaced(text@, from@, to@),
{
    if from.unicode_len() == 0 {
        return text.to_owned();
    }
    let hay = chars_of(text);
    let needle = chars_of(from);
    let n = hay.len();
    let mut out = String::new();
    let mut pending: usize = 0;
    let mut i: usize = 0;
    assert(out@ + text@.subrange(0, 0) =~= Seq::<char>::empty());
    assert(Seq::<char>::empty() + replaced_from(text@, from@, to@, 0) =~= replaced_from(text@, from@, to@, 0));
    while i < n
        invariant
            pending <= i <= n,
            n == text@.len(),
            hay@ == text@,
            needle@ == from@,
            from@.len() > 0,
            replaced(text@, from@, to@) == out@ + text@.subrange(pending as int, i as int) + replaced_from(
                text@,
                from@,
                to@,
                i as int,
            ),
        decreases n - i,
    {
        let ghost rest = replaced_from(text@, from@, to@, i as int);
        if starts_at(hay.as_slice(), needle.as_slice(), i) {
            let ghost before = out@;
            out.append(text.substring_char(pending, i));
            out.append(to);
            let ghost later = replaced_from(text@, from@, to@, i + from@.len());
            assert(out@ + text@.subrange((i + needle.len()) as int, (i + needle.len()) as int) + later
                =~= before + text@.subrange(pending as int, i as int) + (to@ + later));
            i = i + needle.len();
            pending = i;
        } else {
            let ghost later = replaced_from(text@, from@, to@, i + 1);
            assert(out@ + text@.subrange(pending as int, i + 1) + later =~= out@ + text@.subrange(
                pending as int,
                i as int,
            ) + (seq![text@[i as int]] + later));
            i += 1;
        }
    }
    let ghost before = out@;
    out.append(text.substring_char(pending, n));
    assert(out@ =~= before + text@.subrange(pending as int, n as int) + Seq::<char>::empty());
    out
}

} // verus!
