//! The text under which the memory cache files a segment: the topic's name,
//! a colon, and the segment's id in decimal.

use vstd::prelude::*;
use vstd::string::*;

verus! {

/// The character for the decimal digit `d`.
pub open spec fn digit_char(d: nat) -> char {
    if d == 0 {
        '0'
    } else if d == 1 {
        '1'
    } else if d == 2 {
        '2'
    } else if d == 3 {
        '3'
    } else if d == 4 {
        '4'
    } else if d == 5 {
        '5'
    } else if d == 6 {
        '6'
    } else if d == 7 {
        '7'
    } else if d == 8 {
        '8'
    } else {
        '9'
    }
}

/// The decimal digit that `c` stands for; zero for any other character.
pub open spec fn digit_value(c: char) -> nat {
    if c == '1' {
        1
    } else if c == '2' {
        2
    } else if c == '3' {
        3
    } else if c == '4' {
        4
    } else if c == '5' {
        5
    } else if c == '6' {
        6
    } else if c == '7' {
        7
    } else if c == '8' {
        8
    } else if c == '9' {
        9
    } else {
        0
    }
}

/// `n` written in decimal, most significant digit first, without padding.
pub open spec fn decimal(n: nat) -> Seq<char>
    decreases n,
{
    if n < 10 {
        seq![digit_char(n)]
    } else {
        decimal(n / 10).push(digit_char(n % 10))
    }
}

/// The number that a string of decimal digits stands for.
pub open spec fn decimal_value(digits: Seq<char>) -> nat
    decreases digits.len(),
{
    if digits.len() == 0 {
        0
    } else {
        decimal_value(digits.drop_last()) * 10 + digit_value(digits.last())
    }
}

/// The cache key of segment `id` of `topic`.
pub open spec fn segment_key(topic: Seq<char>, id: usize) -> Seq<char> {
    topic + seq![':'] + decimal(id as nat)
}

/// Reading back the decimal form of a number gives the number.
pub proof fn lemma_decimal_value(n: nat)
    ensures
        decimal_value(decimal(n)) == n,
    decreases n,
{
    if n < 10 {
        assert(decimal(n).drop_last() =~= Seq::<char>::empty());
        assert(decimal_value(decimal(n).drop_last()) == 0);
    } else {
        lemma_decimal_value(n / 10);
        assert(decimal(n).drop_last() =~= decimal(n / 10));
    }
}

/// The decimal form of a number is not empty and holds no colon.
pub proof fn lemma_decimal_shape(n: nat)
    ensures
        decimal(n).len() >= 1,
        forall|i: int| 0 <= i < decimal(n).len() ==> decimal(n)[i] != ':',
    decreases n,
{
    if n >= 10 {
        lemma_decimal_shape(n / 10);
    }
}

/// Different segments have different keys: the key determines both the
/// topic and the id.
pub proof fn lemma_segment_key_injective(
    topic_a: Seq<char>,
    id_a: usize,
    topic_b: Seq<char>,
    id_b: usize,
)
    requires
        segment_key(topic_a, id_a) == segment_key(topic_b, id_b),
    ensures
        topic_a == topic_b,
        id_a == id_b,
{
    let key_a = segment_key(topic_a, id_a);
    let key_b = segment_key(topic_b, id_b);
    lemma_decimal_shape(id_a as nat);
    lemma_decimal_shape(id_b as nat);
    let la = topic_a.len() as int;
    let lb = topic_b.len() as int;
    assert(key_a.len() == la + 1 + decimal(id_a as nat).len());
    assert(key_b.len() == lb + 1 + decimal(id_b as nat).len());
    assert(key_a[la] == ':');
    assert(key_b[lb] == ':');
    if la < lb {
        assert(key_a[lb] == decimal(id_a as nat)[lb - la - 1]);
    }
    if lb < la {
        assert(key_b[la] == decimal(id_b as nat)[la - lb - 1]);
    }
    assert(la == lb);
    assert(topic_a =~= key_a.subrange(0, la));
    assert(topic_b =~= key_b.subrange(0, lb));
    assert(decimal(id_a as nat) =~= key_a.subrange(la + 1, key_a.len() as int));
    assert(decimal(id_b as nat) =~= key_b.subrange(lb + 1, key_b.len() as int));
    lemma_decimal_value(id_a as nat);
    lemma_decimal_value(id_b as nat);
}

/// The one-character text of the decimal digit `d`.
fn digit_text(d: usize) -> (text: &'static str)
    requires
        d < 10,
    ensures
        text@ == seq![digit_char(d as nat)],
{
    proof {
        reveal_strlit("0");
        reveal_strlit("1");
        reveal_strlit("2");
        reveal_strlit("3");
        reveal_strlit("4");
        reveal_strlit("5");
        reveal_strlit("6");
        reveal_strlit("7");
        reveal_strlit("8");
        reveal_strlit("9");
    }
    let text = if d == 0 {
        "0"
    } else if d == 1 {
        "1"
    } else if d == 2 {
        "2"
    } else if d == 3 {
        "3"
    } else if d == 4 {
        "4"
    } else if d == 5 {
        "5"
    } else if d == 6 {
        "6"
    } else if d == 7 {
        "7"
    } else if d == 8 {
        "8"
    } else {
        "9"
    };
    assert(text@ =~= seq![digit_char(d as nat)]);
    text
}

/// Appends `n` in decimal to `text`.
fn append_decimal(text: &mut String, n: usize)
    ensures
        final(text)@ == old(text)@ + decimal(n as nat),
    decreases n,
{
    if n >= 10 {
        append_decimal(text, n / 10);
    }
    text.append(digit_text(n % 10));
    assert(text@ =~= old(text)@ + decimal(n as nat));
}

/// Builds the cache key of segment `id` of `topic_name`.
pub fn make_segment_key(topic_name: &str, id: usize) -> (key: String)
    ensures
        key@ == segment_key(topic_name@, id),
{
    let mut key = String::from_str(topic_name);
    proof {
        reveal_strlit(":");
    }
    key.append(":");
    assert(key@ =~= topic_name@ + seq![':']);
    append_decimal(&mut key, id);
    key
}

} // verus!
