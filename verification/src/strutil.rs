//! Small verified string helpers: rendering a number as decimal digits,
//! parsing decimal digits back, and the round trip between the two.

use vstd::prelude::*;

verus! {

/// Relies on std's `String::push`: appends the given character to the end of
/// the string.
pub assume_specification[ std::string::String::push ](s: &mut String, c: char)
    ensures
        final(s)@ == old(s)@.push(c),
;

/// The decimal digit characters, by value.
pub open spec fn digit_char(d: int) -> char {
    if d == 0 {
        '0'
    } else if d == 1 {
        '1'
    } else if d == 2 {
        '2'
    } else if d == 3 {
        '3'
    } else if d == 4 {
        '4'
    } else if d == 5 {
        '5'
    } else if d == 6 {
        '6'
    } else if d == 7 {
        '7'
    } else if d == 8 {
        '8'
    } else {
        '9'
    }
}

/// The value of a decimal digit character, `None` for any other character.
pub open spec fn digit_of(c: char) -> Option<int> {
    match c {
        '0' => Some(0int),
        '1' => Some(1int),
        '2' => Some(2int),
        '3' => Some(3int),
        '4' => Some(4int),
        '5' => Some(5int),
        '6' => Some(6int),
        '7' => Some(7int),
        '8' => Some(8int),
        '9' => Some(9int),
        _ => None,
    }
}

/// The canonical decimal rendering of a non-negative number: no sign, no
/// leading zero except for the number zero itself.
pub open spec fn dec_str(n: int) -> Seq<char>
    decreases n,
{
    if n < 10 {
        seq![digit_char(n)]
    } else {
        dec_str(n / 10).push(digit_char(n % 10))
    }
}

pub open spec fn all_digits(s: Seq<char>) -> bool {
    forall|i: int| 0 <= i < s.len() ==> (#[trigger] digit_of(s[i])) is Some
}

/// The number a digit string denotes.
pub open spec fn dec_val(s: Seq<char>) -> int
    decreases s.len(),
{
    if s.len() == 0 {
        0
    } else {
        dec_val(s.drop_last()) * 10 + (match digit_of(s.last()) {
            Some(d) => d,
            None => 0,
        })
    }
}

/// What parsing a whole string as a non-negative decimal number yields: an
/// optional leading `+`, then at least one digit and nothing else, and the
/// value must fit in `usize`.
pub open spec fn parse_usize_spec(s: Seq<char>) -> Option<usize> {
    let t = if s.len() > 0 && s[0] == '+' {
        s.drop_first()
    } else {
        s
    };
    if t.len() == 0 || !all_digits(t) || dec_val(t) > usize::MAX as int {
        None
    } else {
        Some(dec_val(t) as usize)
    }
}

/// A digit string's value never shrinks as digits are appended.
proof fn lemma_dec_val_prefix(s: Seq<char>, i: int)
    requires
        0 <= i <= s.len(),
        forall|j: int| 0 <= j < s.len() ==> dec_val(#[trigger] s.take(j)) >= 0,
    ensures
        dec_val(s) >= dec_val(s.take(i)),
    decreases s.len() - i,
{
    if i < s.len() {
        assert(s.take(i + 1).drop_last() =~= s.take(i));
        assert(dec_val(s.take(i)) >= 0);
        assert(dec_val(s.take(i + 1)) >= dec_val(s.take(i))) by {
            let v = dec_val(s.take(i));
            assert(v * 10 >= v) by (nonlinear_arith)
                requires
                    v >= 0,
            ;
        };
        lemma_dec_val_prefix(s, i + 1);
    } else {
        assert(s.take(i) =~= s);
    }
}

proof fn lemma_dec_val_nonneg(s: Seq<char>)
    ensures
        dec_val(s) >= 0,
    decreases s.len(),
{
    if s.len() > 0 {
        lemma_dec_val_nonneg(s.drop_last());
        let v = dec_val(s.drop_last());
        assert(v * 10 >= 0) by (nonlinear_arith)
            requires
                v >= 0,
        ;
    }
}

/// Render a number as decimal digits.
pub fn usize_to_string(n: usize) -> (s: String)
    ensures
        s@ == dec_str(n as int),
    decreases n,
{
    if n < 10 {
        let c = digit_char_exec(n);
        let mut s = String::new();
        s.push(c);
        proof {
            assert(s@ =~= dec_str(n as int));
        }
        s
    } else {
        assert(n / 10 < n) by (nonlinear_arith)
            requires
                n >= 10,
        ;
        let mut s = usize_to_string(n / 10);
        let c = digit_char_exec(n % 10);
        s.push(c);
        s
    }
}

fn digit_char_exec(d: usize) -> (c: char)
    requires
        d < 10,
    ensures
        c == digit_char(d as int),
{
    match d {
        0 => '0',
        1 => '1',
        2 => '2',
        3 => '3',
        4 => '4',
        5 => '5',
        6 => '6',
        7 => '7',
        8 => '8',
        _ => '9',
    }
}

fn digit_of_exec(c: char) -> (d: Option<usize>)
    ensures
        match digit_of(c) {
            Some(v) => d == Some(v as usize),
            None => d is None,
        },
{
    match c {
        '0' => Some(0),
        '1' => Some(1),
        '2' => Some(2),
        '3' => Some(3),
        '4' => Some(4),
        '5' => Some(5),
        '6' => Some(6),
        '7' => Some(7),
        '8' => Some(8),
        '9' => Some(9),
        _ => None,
    }
}

/// Parse a whole string as a non-negative decimal number: an optional leading
/// `+`, then at least one digit and nothing else; values over `usize::MAX`
/// are rejected.
pub fn parse_usize(s: &str) -> (r: Option<usize>)
    ensures
        r == parse_usize_spec(s@),
{
    let len = s.unicode_len();
    let start: usize = if len > 0 && s.get_char(0) == '+' {
        1
    } else {
        0
    };
    let ghost t = if s@.len() > 0 && s@[0] == '+' {
        s@.drop_first()
    } else {
        s@
    };
    proof {
        assert(t =~= s@.subrange(start as int, len as int));
    }
    if start == len {
        proof {
            assert(t.len() == 0);
        }
        return None;
    }
    let mut acc: usize = 0;
    let mut i: usize = start;
    while i < len
        invariant
            start <= i <= len,
            len == s@.len(),
            start == if s@.len() > 0 && s@[0] == '+' { 1int } else { 0int },
            t == (if s@.len() > 0 && s@[0] == '+' { s@.drop_first() } else { s@ }),
            t == s@.subrange(start as int, len as int),
            all_digits(t.take(i - start)),
            acc as int == dec_val(t.take(i - start)),
        decreases len - i,
    {
        let c = s.get_char(i);
        proof {
            assert(t[i - start] == s@[i as int]);
        }
        let d = match digit_of_exec(c) {
            Some(d) => d,
            None => {
                proof {
                    assert(!all_digits(t)) by {
                        assert(digit_of(t[i - start]) is None);
                    };
                }
                return None;
            },
        };
        proof {
            assert(t.take(i + 1 - start).drop_last() =~= t.take(i - start));
            assert(t.take(i + 1 - start).last() == t[i - start]);
        }
        let next = match acc.checked_mul(10) {
            Some(m) => m.checked_add(d),
            None => None,
        };
        let ghost v = dec_val(t.take(i + 1 - start));
        proof {
            assert(v == acc as int * 10 + d as int);
        }
        match next {
            Some(n) => {
                acc = n;
            },
            None => {
                proof {
                    assert(v > usize::MAX as int);
                    assert forall|j: int| 0 <= j < t.len() implies dec_val(
                        #[trigger] t.take(j),
                    ) >= 0 by {
                        lemma_dec_val_nonneg(t.take(j));
                    };
                    lemma_dec_val_prefix(t, i + 1 - start);
                    assert(dec_val(t) > usize::MAX as int);
                }
                return None;
            },
        }
        i += 1;
    }
    proof {
        assert(t.take(len - start) =~= t);
    }
    Some(acc)
}

/// Rendering then parsing gives the number back.
pub proof fn lemma_dec_str_round_trip(n: usize)
    ensures
        parse_usize_spec(dec_str(n as int)) == Some(n),
{
    lemma_dec_str_digits(n as int);
    lemma_dec_val_of_dec_str(n as int);
    let s = dec_str(n as int);
    assert(s.len() > 0);
    assert(digit_of(s[0]) is Some);
    assert(s[0] != '+');
}

proof fn lemma_dec_str_digits(n: int)
    requires
        n >= 0,
    ensures
        dec_str(n).len() > 0,
        all_digits(dec_str(n)),
    decreases n,
{
    if n < 10 {
        assert(digit_of(dec_str(n)[0]) is Some);
    } else {
        lemma_dec_str_digits(n / 10);
        let s = dec_str(n);
        let p = dec_str(n / 10);
        assert forall|i: int| 0 <= i < s.len() implies (#[trigger] digit_of(s[i])) is Some by {
            if i < p.len() {
                assert(s[i] == p[i]);
            } else {
                assert(s[i] == digit_char(n % 10));
            }
        };
    }
}

proof fn lemma_dec_val_of_dec_str(n: int)
    requires
        n >= 0,
    ensures
        dec_val(dec_str(n)) == n,
    decreases n,
{
    if n < 10 {
        let s = dec_str(n);
        assert(s =~= seq![digit_char(n)]);
        assert(s.len() == 1);
        assert(s.last() == digit_char(n));
        assert(s.drop_last() =~= Seq::<char>::empty());
        assert(dec_val(s.drop_last()) == 0);
        assert(digit_of(digit_char(n)) == Some(n));
        assert(dec_val(s) == 0 * 10 + n);
    } else {
        assert(n / 10 < n && n / 10 >= 0 && n % 10 < 10 && n % 10 >= 0 && (n / 10) * 10 + n % 10
            == n) by (nonlinear_arith)
            requires
                n >= 10,
        ;
        lemma_dec_val_of_dec_str(n / 10);
        let s = dec_str(n);
        assert(s == dec_str(n / 10).push(digit_char(n % 10)));
        assert(s.len() == dec_str(n / 10).len() + 1);
        assert(s.last() == digit_char(n % 10));
        assert(s.drop_last() =~= dec_str(n / 10));
        assert(digit_of(digit_char(n % 10)) == Some(n % 10));
        assert(dec_val(s) == dec_val(dec_str(n / 10)) * 10 + (n % 10));
        assert(dec_val(s) == (n / 10) * 10 + (n % 10));
    }
}

} // verus!
