//! Text helpers: comparison, concatenation and decimal numerals.
use vstd::prelude::*;
use vstd::string::{StrSliceExecFns, StringExecFns};

verus! {

/// Whether two strings hold the same characters.
pub fn same_text(a: &str, b: &str) -> (r: bool)
    ensures
        r == (a@ == b@),
{
    let x = a.as_bytes();
    let y = b.as_bytes();
    proof {
        vstd::utf8::encode_utf8_decode_utf8(a@);
        vstd::utf8::encode_utf8_decode_utf8(b@);
    }
    if x.len() != y.len() {
        return false;
    }
    let mut i: usize = 0;
    while i < x.len()
        invariant
            i <= x.len(),
            x.len() == y.len(),
            x@ == vstd::utf8::encode_utf8(a@),
            y@ == vstd::utf8::encode_utf8(b@),
            forall|j: int| 0 <= j < i ==> x@[j] == y@[j],
        decreases x.len() - i,
    {
        if x[i] != y[i] {
            return false;
        }
        i = i + 1;
    }
    assert(x@ =~= y@);
    true
}

/// The character of a decimal digit.
pub open spec fn digit_char(d: int) -> char {
    (48 + d) as char
}

/// The decimal numeral of a natural number.
pub open spec fn numeral(n: nat) -> Seq<char>
    decreases n,
{
    if n < 10 {
        seq![digit_char(n as int)]
    } else {
        numeral(n / 10).push(digit_char((n % 10) as int))
    }
}

/// The decimal numeral of an integer, with a leading minus where negative.
pub open spec fn decimal(n: int) -> Seq<char> {
    if n < 0 {
        seq!['-'] + numeral((-n) as nat)
    } else {
        numeral(n as nat)
    }
}

fn digit_text(d: u64) -> (r: &'static str)
    requires
        d < 10,
    ensures
        r@ == seq![digit_char(d as int)],
{
    proof {
        reveal_strlit("0");
        reveal_strlit("1");
        reveal_strlit("2");
        reveal_strlit("3");
        reveal_strlit("4");
        reveal_strlit("5");
        reveal_strlit("6");
        reveal_strlit("7");
        reveal_strlit("8");
        reveal_strlit("9");
    }
    let r: &'static str = match d {
        0 => "0",
        1 => "1",
        2 => "2",
        3 => "3",
        4 => "4",
        5 => "5",
        6 => "6",
        7 => "7",
        8 => "8",
        _ => "9",
    };
    assert(r@ =~= seq![digit_char(d as int)]);
    r
}

fn append_numeral(s: &mut String, n: u64)
    ensures
        final(s)@ == old(s)@ + numeral(n as nat),
    decreases n,
{
    if n >= 10 {
        append_numeral(s, n / 10);
    }
    s.append(digit_text(n % 10));
    assert(s@ =~= old(s)@ + numeral(n as nat));
}

/// `prefix` followed by the decimal numeral of `n`.
pub fn with_number(prefix: &str, n: i64) -> (r: String)
    ensures
        r@ == prefix@ + decimal(n as int),
{
    let mut s = prefix.to_owned();
    if n < 0 {
        s.append("-");
        append_numeral(&mut s, (-(n as i128)) as u64);
        proof {
            reveal_strlit("-");
        }
        assert(s@ =~= prefix@ + decimal(n as int));
    } else {
        append_numeral(&mut s, n as u64);
    }
    s
}

/// `prefix` followed by the decimal numeral of a count.
pub fn with_count(prefix: &str, n: usize) -> (r: String)
    ensures
        r@ == prefix@ + decimal(n as int),
{
    let mut s = prefix.to_owned();
    append_numeral(&mut s, n as u64);
    s
}

/// Two strings one after the other.
pub fn join2(a: &str, b: &str) -> (r: String)
    ensures
        r@ == a@ + b@,
{
    a.to_owned().concat(b)
}

/// Whether a text begins with another.
pub open spec fn opens_with(s: Seq<char>, start: Seq<char>) -> bool {
    start.len() <= s.len() && s.take(start.len() as int) == start
}

/// Whether a text begins with another.
pub fn begins(s: &str, start: &str) -> (r: bool)
    ensures
        r == opens_with(s@, start@),
{
    let n: usize = start.unicode_len();
    if s.unicode_len() < n {
        return false;
    }
    let mut i: usize = 0;
    while i < n
        invariant
            i <= n == start@.len(),
            n <= s@.len(),
            forall|k: int| 0 <= k < i ==> s@[k] == start@[k],
        decreases n - i,
    {
        if s.get_char(i) != start.get_char(i) {
            assert(s@.take(n as int)[i as int] != start@[i as int]);
            return false;
        }
        i = i + 1;
    }
    assert(s@.take(n as int) =~= start@);
    true
}

/// Whether a list of keys holds a text.
pub open spec fn has_key(list: Seq<&'static str>, key: Seq<char>) -> bool {
    exists|i: int| 0 <= i < list.len() && (#[trigger] list[i])@ == key
}

/// Whether a list of keys holds a text.
pub fn list_has(list: &Vec<&'static str>, key: &str) -> (r: bool)
    ensures
        r == has_key(list@, key@),
{
    let mut i: usize = 0;
    while i < list.len()
        invariant
            i <= list.len(),
            forall|j: int| 0 <= j < i ==> (#[trigger] list@[j])@ != key@,
        decreases list.len() - i,
    {
        if same_text(list[i], key) {
            return true;
        }
        i = i + 1;
    }
    false
}

/// Whether a text goes before another that agrees with it up to place `i`:
/// by the first character that differs, a shorter text before a longer one.
pub open spec fn before_from(a: Seq<char>, b: Seq<char>, i: nat) -> bool
    decreases b.len() - i,
{
    if i >= b.len() {
        false
    } else if i >= a.len() {
        true
    } else if a[i as int] != b[i as int] {
        (a[i as int] as int) < (b[i as int] as int)
    } else {
        before_from(a, b, i + 1)
    }
}

/// Whether a text goes before another.
pub open spec fn goes_before(a: Seq<char>, b: Seq<char>) -> bool {
    before_from(a, b, 0)
}

/// Whether a text goes before another.
pub fn text_before(a: &str, b: &str) -> (r: bool)
    ensures
        r == goes_before(a@, b@),
{
    let m: usize = a.unicode_len();
    let n: usize = b.unicode_len();
    let mut i: usize = 0;
    while i < n
        invariant
            i <= n == b@.len(),
            m == a@.len(),
            before_from(a@, b@, i as nat) == goes_before(a@, b@),
        decreases n - i,
    {
        if i >= m {
            return true;
        }
        let x: char = a.get_char(i);
        let y: char = b.get_char(i);
        if x != y {
            return (x as u32) < (y as u32);
        }
        i = i + 1;
    }
    false
}

proof fn lemma_before_from(a: Seq<char>, b: Seq<char>, c: Seq<char>, i: nat)
    requires
        i <= a.len(),
        i <= b.len(),
        forall|k: int| 0 <= k < i ==> a[k] == b[k],
    ensures
        !(before_from(a, b, i) && before_from(b, a, i)),
        a == b || before_from(a, b, i) || before_from(b, a, i),
        before_from(a, b, i) && before_from(b, c, i) ==> before_from(a, c, i),
    decreases a.len() + b.len() - i,
{
    if i < a.len() && i < b.len() && a[i as int] == b[i as int] {
        lemma_before_from(a, b, c, i + 1);
    } else if i == a.len() && i == b.len() {
        assert(a =~= b);
    }
}

/// Texts stand in one order: of two that differ exactly one goes before the
/// other, and what goes before one goes before all that follow it.
pub proof fn law_texts_are_ordered(a: Seq<char>, b: Seq<char>, c: Seq<char>)
    ensures
        !goes_before(a, a),
        !(goes_before(a, b) && goes_before(b, a)),
        a == b || goes_before(a, b) || goes_before(b, a),
        goes_before(a, b) && goes_before(b, c) ==> goes_before(a, c),
{
    lemma_before_from(a, b, c, 0);
    lemma_before_from(a, a, c, 0);
}

} // verus!
