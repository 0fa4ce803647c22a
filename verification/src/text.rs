use crate::alphabet::laws::{law_glyphs_order_antisymmetric, law_glyphs_order_transitive};
use crate::alphabet::{
    first_difference, glyph_order, glyphs_order, lemma_order_at_difference,
    lemma_order_without_difference, other_glyph, Character,
};
use std::str::Chars;
use vstd::prelude::*;
use vstd::std_specs::iter::IteratorSpec;

verus! {

/// `String::push` of the standard library: the character is added at the end
/// of the string, and nothing else changes.
pub assume_specification[ String::push ](s: &mut String, ch: char)
    ensures
        final(s)@ == old(s)@.push(ch),
;

/// The pieces of a text between the occurrences of a separator: one piece
/// more than there are separators, none of which holds a separator.
pub open spec fn split_seq(s: Seq<char>, sep: char) -> Seq<Seq<char>>
    decreases s.len(),
{
    if s.len() == 0 {
        seq![Seq::empty()]
    } else {
        let before = split_seq(s.drop_last(), sep);
        if s.last() == sep {
            before.push(Seq::empty())
        } else {
            before.drop_last().push(before.last().push(s.last()))
        }
    }
}

/// A text with every occurrence of one character replaced by another.
pub open spec fn replace_char_seq(s: Seq<char>, from: char, to: char) -> Seq<char> {
    s.map_values(
        |c: char|
            if c == from {
                to
            } else {
                c
            },
    )
}

/// Whether two texts are the same.
pub fn str_eq(a: &str, b: &str) -> (r: bool)
    ensures
        r == (a@ == b@),
{
    let mut ia: Chars<'_> = a.chars();
    let mut ib: Chars<'_> = b.chars();
    let ghost mut k: int = 0;
    loop
        invariant
            ia.decrease() is Some,
            0 <= k <= a@.len(),
            k <= b@.len(),
            ia.remaining() == a@.skip(k),
            ib.remaining() == b@.skip(k),
            a@.take(k) == b@.take(k),
        decreases ia.decrease()->0,
    {
        let ca = ia.next();
        let cb = ib.next();
        match (ca, cb) {
            (Some(x), Some(y)) => {
                if x != y {
                    assert(a@[k] != b@[k]);
                    return false;
                }
                proof {
                    assert(a@.skip(k).drop_first() =~= a@.skip(k + 1));
                    assert(b@.skip(k).drop_first() =~= b@.skip(k + 1));
                    assert(a@.take(k + 1) =~= a@.take(k).push(x));
                    assert(b@.take(k + 1) =~= b@.take(k).push(y));
                    k = k + 1;
                }
            },
            (None, None) => {
                assert(a@.take(k) =~= a@);
                assert(b@.take(k) =~= b@);
                return true;
            },
            _ => {
                assert(a@.len() != b@.len());
                return false;
            },
        }
    }
}

/// Whether a text begins with another.
pub fn starts_with(s: &str, prefix: &str) -> (r: bool)
    ensures
        r == prefix@.is_prefix_of(s@),
{
    let mut is: Chars<'_> = s.chars();
    let mut ip: Chars<'_> = prefix.chars();
    let ghost mut k: int = 0;
    loop
        invariant
            ip.decrease() is Some,
            0 <= k <= s@.len(),
            k <= prefix@.len(),
            is.remaining() == s@.skip(k),
            ip.remaining() == prefix@.skip(k),
            s@.take(k) == prefix@.take(k),
        decreases ip.decrease()->0,
    {
        let cp = match ip.next() {
            Some(c) => c,
            None => {
                assert(prefix@.take(k) =~= prefix@);
                assert(s@.subrange(0, prefix@.len() as int) =~= s@.take(k));
                return true;
            },
        };
        let cs = match is.next() {
            Some(c) => c,
            None => {
                return false;
            },
        };
        if cs != cp {
            proof {
                if prefix@.len() <= s@.len() {
                    assert(s@.subrange(0, prefix@.len() as int)[k] == s@[k]);
                }
            }
            return false;
        }
        proof {
            assert(s@.skip(k).drop_first() =~= s@.skip(k + 1));
            assert(prefix@.skip(k).drop_first() =~= prefix@.skip(k + 1));
            assert(s@.take(k + 1) =~= s@.take(k).push(cs));
            assert(prefix@.take(k + 1) =~= prefix@.take(k).push(cp));
            k = k + 1;
        }
    }
}

/// A copy of a text in which every occurrence of `from` is `to`.
pub fn replace_char(s: &str, from: char, to: char) -> (r: String)
    ensures
        r@ == replace_char_seq(s@, from, to),
{
    let mut it: Chars<'_> = s.chars();
    let mut out = String::new();
    let ghost mut k: int = 0;
    loop
        invariant
            it.decrease() is Some,
            0 <= k <= s@.len(),
            it.remaining() == s@.skip(k),
            out@ == replace_char_seq(s@.take(k), from, to),
        ensures
            out@ == replace_char_seq(s@, from, to),
        decreases it.decrease()->0,
    {
        match it.next() {
            Some(c) => {
                out.push(
                    if c == from {
                        to
                    } else {
                        c
                    },
                );
                proof {
                    assert(s@.skip(k).drop_first() =~= s@.skip(k + 1));
                    assert(s@.take(k + 1) =~= s@.take(k).push(c));
                    assert(out@ =~= replace_char_seq(s@.take(k + 1), from, to));
                    k = k + 1;
                }
            },
            None => {
                assert(s@.take(k) =~= s@);
                break ;
            },
        }
    }
    out
}

/// The pieces of a text between the occurrences of a separator.
pub fn split_on(s: &str, sep: char) -> (r: Vec<String>)
    ensures
        r.deep_view() == split_seq(s@, sep),
{
    let mut it: Chars<'_> = s.chars();
    let mut done: Vec<String> = Vec::new();
    let mut piece = String::new();
    let ghost mut k: int = 0;
    loop
        invariant
            it.decrease() is Some,
            0 <= k <= s@.len(),
            it.remaining() == s@.skip(k),
            done.deep_view().push(piece@) == split_seq(s@.take(k), sep),
        ensures
            done.deep_view().push(piece@) == split_seq(s@, sep),
        decreases it.decrease()->0,
    {
        match it.next() {
            Some(c) => {
                let ghost before = done.deep_view().push(piece@);
                if c == sep {
                    done.push(piece);
                    piece = String::new();
                    assert(done.deep_view() =~= before);
                } else {
                    piece.push(c);
                    assert(before.drop_last() =~= done.deep_view());
                }
                proof {
                    assert(s@.skip(k).drop_first() =~= s@.skip(k + 1));
                    assert(s@.take(k + 1).drop_last() =~= s@.take(k));
                    assert(s@.take(k + 1).last() == c);
                    k = k + 1;
                }
            },
            None => {
                assert(s@.take(k) =~= s@);
                break ;
            },
        }
    }
    let ghost before = done.deep_view().push(piece@);
    done.push(piece);
    assert(done.deep_view() =~= before);
    done
}

/// The decimal digit for a number below ten.
pub open spec fn digit(d: nat) -> char {
    if d == 0 {
        '0'
    } else if d == 1 {
        '1'
    } else if d == 2 {
        '2'
    } else if d == 3 {
        '3'
    } else if d == 4 {
        '4'
    } else if d == 5 {
        '5'
    } else if d == 6 {
        '6'
    } else if d == 7 {
        '7'
    } else if d == 8 {
        '8'
    } else {
        '9'
    }
}

/// A natural number in decimal digits, without leading zeros.
pub open spec fn decimal_nat(n: nat) -> Seq<char>
    decreases n,
{
    if n < 10 {
        seq![digit(n)]
    } else {
        decimal_nat(n / 10).push(digit(n % 10))
    }
}

/// An integer in decimal digits, with a minus sign where it is negative.
pub open spec fn decimal(n: int) -> Seq<char> {
    if n < 0 {
        seq!['-'] + decimal_nat((-n) as nat)
    } else {
        decimal_nat(n as nat)
    }
}

fn digit_of(d: u64) -> (c: char)
    requires
        d < 10,
    ensures
        c == digit(d as nat),
{
    if d == 0 {
        '0'
    } else if d == 1 {
        '1'
    } else if d == 2 {
        '2'
    } else if d == 3 {
        '3'
    } else if d == 4 {
        '4'
    } else if d == 5 {
        '5'
    } else if d == 6 {
        '6'
    } else if d == 7 {
        '7'
    } else if d == 8 {
        '8'
    } else {
        '9'
    }
}

fn push_decimal(out: &mut String, n: u64)
    ensures
        final(out)@ == old(out)@ + decimal_nat(n as nat),
    decreases n,
{
    if n < 10 {
        out.push(digit_of(n));
        assert(out@ =~= old(out)@ + decimal_nat(n as nat));
    } else {
        push_decimal(out, n / 10);
        out.push(digit_of(n % 10));
        assert(out@ =~= old(out)@ + decimal_nat(n as nat));
    }
}

/// Writes an integer in decimal digits.
pub fn i64_to_string(n: i64) -> (r: String)
    ensures
        r@ == decimal(n as int),
{
    let mut out = String::new();
    if n < 0 {
        out.push('-');
        let magnitude: u64 = if n == i64::MIN {
            9223372036854775808u64
        } else {
            (-n) as u64
        };
        push_decimal(&mut out, magnitude);
        assert(out@ =~= decimal(n as int));
    } else {
        push_decimal(&mut out, n as u64);
        assert(out@ =~= decimal(n as int));
    }
    out
}

/// The number that a decimal digit stands for.
pub open spec fn digit_value(c: char) -> Option<nat> {
    if '0' <= c <= '9' {
        Some((c as int - '0' as int) as nat)
    } else {
        None
    }
}

/// The number that a text of decimal digits, one at least, stands for.
pub open spec fn digits_value(s: Seq<char>) -> Option<nat>
    decreases s.len(),
{
    if s.len() == 0 {
        None
    } else {
        match digit_value(s.last()) {
            None => None,
            Some(d) => if s.len() == 1 {
                Some(d)
            } else {
                match digits_value(s.drop_last()) {
                    None => None,
                    Some(v) => Some(v * 10 + d),
                }
            },
        }
    }
}

/// The integer that a text stands for: decimal digits, after a plus or a
/// minus sign or none, that give a number which fits 64 bits with a sign.
pub open spec fn parsed_i64(s: Seq<char>) -> Option<i64> {
    let negative = s.len() > 0 && s[0] == '-';
    let signed = s.len() > 0 && (s[0] == '-' || s[0] == '+');
    let body = if signed {
        s.skip(1)
    } else {
        s
    };
    match digits_value(body) {
        None => None,
        Some(v) => if negative {
            if v <= 9223372036854775808 {
                Some((-(v as int)) as i64)
            } else {
                None
            }
        } else {
            if v <= 9223372036854775807 {
                Some(v as i64)
            } else {
                None
            }
        },
    }
}

/// A number of decimal digits only grows with more digits.
proof fn lemma_digits_value_grows(s: Seq<char>, k: int)
    requires
        1 <= k <= s.len(),
        digits_value(s) is Some,
    ensures
        digits_value(s.take(k)) is Some,
        digits_value(s.take(k))->0 <= digits_value(s)->0,
    decreases s.len(),
{
    if k == s.len() {
        assert(s.take(k) =~= s);
    } else {
        assert(s.drop_last().take(k) =~= s.take(k));
        lemma_digits_value_grows(s.drop_last(), k);
    }
}

/// Where some digits of a text already give a number, the whole text gives
/// none or one at least as large.
proof fn lemma_digits_value_prefix(s: Seq<char>, k: int)
    requires
        1 <= k <= s.len(),
    ensures
        digits_value(s.take(k)) is None ==> digits_value(s) is None,
        digits_value(s) is Some ==> digits_value(s.take(k))->0 <= digits_value(s)->0,
{
    if digits_value(s) is Some {
        lemma_digits_value_grows(s, k);
    }
}

/// Reads an integer in decimal digits.
pub fn parse_i64(s: &str) -> (r: Option<i64>)
    ensures
        r == parsed_i64(s@),
{
    let mut it: Chars<'_> = s.chars();
    let ghost mut k: int = 0;
    let first = match it.next() {
        Some(c) => c,
        None => {
            return None;
        },
    };
    let negative = first == '-';
    let signed = first == '-' || first == '+';
    let ghost body = if signed {
        s@.skip(1)
    } else {
        s@
    };
    let mut value: u64 = 0;
    let mut any: bool = false;
    if !signed {
        if '0' <= first && first <= '9' {
            value = (first as u32 - '0' as u32) as u64;
            any = true;
            proof {
                k = 1;
                assert(body.take(1).drop_last() =~= Seq::<char>::empty());
            }
        } else {
            proof {
                assert(body.take(1).last() == first);
                lemma_digits_value_prefix(body, 1);
            }
            return None;
        }
    }
    assert(it.remaining() =~= body.skip(k));
    loop
        invariant
            it.decrease() is Some,
            0 <= k <= body.len(),
            it.remaining() == body.skip(k),
            any == (k > 0),
            any ==> digits_value(body.take(k)) == Some(value as nat),
            !any ==> value == 0,
            value <= 9223372036854775808,
            body == if signed {
                s@.skip(1)
            } else {
                s@
            },
            negative == (s@.len() > 0 && s@[0] == '-'),
            signed == (s@.len() > 0 && (s@[0] == '-' || s@[0] == '+')),
        ensures
            k == body.len(),
            any == (k > 0),
            any ==> digits_value(body) == Some(value as nat),
            value <= 9223372036854775808,
        decreases it.decrease()->0,
    {
        match it.next() {
            Some(c) => {
                proof {
                    assert(body.skip(k).drop_first() =~= body.skip(k + 1));
                    assert(body.take(k + 1).last() == c);
                    assert(body.take(k + 1).drop_last() =~= body.take(k));
                    lemma_digits_value_prefix(body, k + 1);
                }
                if !('0' <= c && c <= '9') {
                    return None;
                }
                let d = (c as u32 - '0' as u32) as u64;
                proof {
                    let t = body.take(k + 1);
                    assert(digit_value(c) == Some(d as nat));
                    if k > 0 {
                        assert(digits_value(t) == Some((value * 10 + d) as nat));
                    } else {
                        assert(t.len() == 1);
                        assert(digits_value(t) == Some(d as nat));
                    }
                }
                if value > 922337203685477580 || value * 10 + d > 9223372036854775808 {
                    return None;
                }
                value = value * 10 + d;
                any = true;
                proof {
                    k = k + 1;
                }
            },
            None => {
                assert(body.take(k) =~= body);
                break ;
            },
        }
    }
    if !any {
        None
    } else if negative {
        if value == 9223372036854775808 {
            Some(i64::MIN)
        } else {
            Some(-(value as i64))
        }
    } else if value <= 9223372036854775807 {
        Some(value as i64)
    } else {
        None
    }
}

/// A text as glyphs that are no letters: the glyphs order then compares
/// texts character by character, by code point.
pub open spec fn plain_glyphs(s: Seq<char>) -> Seq<Character> {
    s.map_values(|c: char| other_glyph(c))
}

/// How two texts compare by their code points, the shorter first where one
/// begins the other: -1, 0 or 1.
pub open spec fn code_point_order(a: Seq<char>, b: Seq<char>) -> int {
    glyphs_order(plain_glyphs(a), plain_glyphs(b))
}

/// Compares two texts by their code points.
pub fn compare_code_points(a: &str, b: &str) -> (r: i8)
    ensures
        r == code_point_order(a@, b@),
{
    let mut ia: Chars<'_> = a.chars();
    let mut ib: Chars<'_> = b.chars();
    let ghost ga = plain_glyphs(a@);
    let ghost gb = plain_glyphs(b@);
    let ghost mut k: int = 0;
    loop
        invariant
            ia.decrease() is Some,
            ga == plain_glyphs(a@),
            gb == plain_glyphs(b@),
            ga.len() == a@.len(),
            gb.len() == b@.len(),
            forall|i: int| 0 <= i < a@.len() ==> #[trigger] ga[i] == Character::Other(a@[i]),
            forall|i: int| 0 <= i < b@.len() ==> #[trigger] gb[i] == Character::Other(b@[i]),
            0 <= k <= a@.len(),
            k <= b@.len(),
            ia.remaining() == a@.skip(k),
            ib.remaining() == b@.skip(k),
            forall|j: int| 0 <= j < k ==> #[trigger] glyph_order(ga[j], gb[j]) == 0,
        decreases ia.decrease()->0,
    {
        let ca = ia.next();
        let cb = ib.next();
        match (ca, cb) {
            (Some(x), Some(y)) => {
                proof {
                    assert(a@.skip(k).drop_first() =~= a@.skip(k + 1));
                    assert(b@.skip(k).drop_first() =~= b@.skip(k + 1));
                    assert(ga[k] == Character::Other(x));
                    assert(gb[k] == Character::Other(y));
                }
                let cx: u32 = x as u32;
                let cy: u32 = y as u32;
                if cx != cy {
                    proof {
                        assert(first_difference(ga, gb, k));
                        lemma_order_at_difference(ga, gb, k);
                    }
                    return if cx < cy {
                        -1
                    } else {
                        1
                    };
                }
                proof {
                    k = k + 1;
                }
            },
            (None, None) => {
                proof {
                    lemma_order_without_difference(ga, gb);
                }
                return 0;
            },
            (None, Some(_)) => {
                proof {
                    lemma_order_without_difference(ga, gb);
                }
                return -1;
            },
            (Some(_), None) => {
                proof {
                    lemma_order_without_difference(ga, gb);
                }
                return 1;
            },
        }
    }
}

/// The order by code points is -1, 0 or 1; it is 0 for one and the same text
/// only, and turns round when the texts change places.
pub proof fn law_code_point_order_antisymmetric(a: Seq<char>, b: Seq<char>)
    ensures
        -1 <= code_point_order(a, b) <= 1,
        code_point_order(a, b) == -code_point_order(b, a),
        code_point_order(a, b) == 0 <==> a == b,
{
    law_glyphs_order_antisymmetric(plain_glyphs(a), plain_glyphs(b));
    if plain_glyphs(a) == plain_glyphs(b) {
        assert(a.len() == plain_glyphs(a).len());
        assert(b.len() == plain_glyphs(b).len());
        assert forall|i: int| 0 <= i < a.len() implies a[i] == b[i] by {
            assert(plain_glyphs(a)[i] == Character::Other(a[i]));
            assert(plain_glyphs(b)[i] == Character::Other(b[i]));
        }
        assert(a =~= b);
    }
}

/// A text that sorts before a second, which sorts before a third, sorts
/// before the third.
pub proof fn law_code_point_order_transitive(a: Seq<char>, b: Seq<char>, c: Seq<char>)
    requires
        code_point_order(a, b) < 0,
        code_point_order(b, c) < 0,
    ensures
        code_point_order(a, c) < 0,
{
    law_glyphs_order_transitive(plain_glyphs(a), plain_glyphs(b), plain_glyphs(c));
}

} // verus!
