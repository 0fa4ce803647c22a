use crate::alphabet::{
    aspirate_of, first_difference, first_glyph, first_glyph_len, glyph_order, glyph_spelling,
    glyphs, glyphs_order, is_letter_char, lemma_aspirate_spelling, lemma_first_glyph,
    lemma_glyphs_step, lemma_letter_by_shape, lemma_letter_spelled, lemma_order_at_difference,
    lemma_order_without_difference, lemma_spelling_shape, letter_glyph, letter_spelled, sign_of,
    spell, text_order, Character, PaliAlphabet,
};
use vstd::prelude::*;

verus! {

/// Every place from 0 to 40 is taken by exactly one letter.
pub proof fn law_ordinals_dense(i: int)
    requires
        0 <= i <= 40,
    ensures
        exists|a: PaliAlphabet| a.ordinal() == i,
        forall|a: PaliAlphabet, b: PaliAlphabet|
            a.ordinal() == i && b.ordinal() == i ==> a == b,
{
    if i == 0 {
        assert(PaliAlphabet::A.ordinal() == i);
    } else if i == 1 {
        assert(PaliAlphabet::AA.ordinal() == i);
    } else if i == 2 {
        assert(PaliAlphabet::I.ordinal() == i);
    } else if i == 3 {
        assert(PaliAlphabet::II.ordinal() == i);
    } else if i == 4 {
        assert(PaliAlphabet::U.ordinal() == i);
    } else if i == 5 {
        assert(PaliAlphabet::UU.ordinal() == i);
    } else if i == 6 {
        assert(PaliAlphabet::E.ordinal() == i);
    } else if i == 7 {
        assert(PaliAlphabet::O.ordinal() == i);
    } else if i == 8 {
        assert(PaliAlphabet::K.ordinal() == i);
    } else if i == 9 {
        assert(PaliAlphabet::KH.ordinal() == i);
    } else if i == 10 {
        assert(PaliAlphabet::G.ordinal() == i);
    } else if i == 11 {
        assert(PaliAlphabet::GH.ordinal() == i);
    } else if i == 12 {
        assert(PaliAlphabet::QuoteN.ordinal() == i);
    } else if i == 13 {
        assert(PaliAlphabet::C.ordinal() == i);
    } else if i == 14 {
        assert(PaliAlphabet::CH.ordinal() == i);
    } else if i == 15 {
        assert(PaliAlphabet::J.ordinal() == i);
    } else if i == 16 {
        assert(PaliAlphabet::JH.ordinal() == i);
    } else if i == 17 {
        assert(PaliAlphabet::TildeN.ordinal() == i);
    } else if i == 18 {
        assert(PaliAlphabet::DotT.ordinal() == i);
    } else if i == 19 {
        assert(PaliAlphabet::DotTH.ordinal() == i);
    } else if i == 20 {
        assert(PaliAlphabet::DotD.ordinal() == i);
    } else if i == 21 {
        assert(PaliAlphabet::DotDH.ordinal() == i);
    } else if i == 22 {
        assert(PaliAlphabet::DotN.ordinal() == i);
    } else if i == 23 {
        assert(PaliAlphabet::T.ordinal() == i);
    } else if i == 24 {
        assert(PaliAlphabet::TH.ordinal() == i);
    } else if i == 25 {
        assert(PaliAlphabet::D.ordinal() == i);
    } else if i == 26 {
        assert(PaliAlphabet::DH.ordinal() == i);
    } else if i == 27 {
        assert(PaliAlphabet::N.ordinal() == i);
    } else if i == 28 {
        assert(PaliAlphabet::P.ordinal() == i);
    } else if i == 29 {
        assert(PaliAlphabet::PH.ordinal() == i);
    } else if i == 30 {
        assert(PaliAlphabet::B.ordinal() == i);
    } else if i == 31 {
        assert(PaliAlphabet::BH.ordinal() == i);
    } else if i == 32 {
        assert(PaliAlphabet::M.ordinal() == i);
    } else if i == 33 {
        assert(PaliAlphabet::Y.ordinal() == i);
    } else if i == 34 {
        assert(PaliAlphabet::R.ordinal() == i);
    } else if i == 35 {
        assert(PaliAlphabet::L.ordinal() == i);
    } else if i == 36 {
        assert(PaliAlphabet::V.ordinal() == i);
    } else if i == 37 {
        assert(PaliAlphabet::S.ordinal() == i);
    } else if i == 38 {
        assert(PaliAlphabet::H.ordinal() == i);
    } else if i == 39 {
        assert(PaliAlphabet::DotL.ordinal() == i);
    } else {
        assert(PaliAlphabet::DotM.ordinal() == i);
    }
}

/// A letter's place is between 0 and 40, and no two letters share a place.
pub proof fn law_ordinal_injective(a: PaliAlphabet, b: PaliAlphabet)
    ensures
        0 <= a.ordinal() <= 40,
        a.ordinal() == b.ordinal() ==> a == b,
{
}

/// Two-character spellings are those of the ten aspirated consonants: each
/// is the spelling of the consonant before it in the alphabet, followed by
/// `h`.
pub proof fn law_two_character_spellings(a: PaliAlphabet)
    ensures
        a.spelling().len() == 2 <==> (a == PaliAlphabet::KH || a == PaliAlphabet::GH || a
            == PaliAlphabet::CH || a == PaliAlphabet::JH || a == PaliAlphabet::DotTH || a
            == PaliAlphabet::DotDH || a == PaliAlphabet::TH || a == PaliAlphabet::DH || a
            == PaliAlphabet::PH || a == PaliAlphabet::BH),
        a.spelling().len() == 2 <==> exists|base: PaliAlphabet| aspirate_of(base) == Some(a),
        forall|base: PaliAlphabet|
            aspirate_of(base) == Some(a) ==> base.ordinal() + 1 == a.ordinal() && a.spelling()
                == base.spelling().push('h'),
{
    lemma_spelling_shape(a);
    if a.spelling().len() == 2 {
        let base = choose|base: PaliAlphabet| base.ordinal() + 1 == a.ordinal();
        law_ordinals_dense(a.ordinal() - 1);
        assert(aspirate_of(base) == Some(a));
    }
    assert forall|base: PaliAlphabet| aspirate_of(base) == Some(a) implies base.ordinal() + 1
        == a.ordinal() && a.spelling() == base.spelling().push('h') by {
        lemma_aspirate_spelling(base, a);
    }
}

/// The text of a single glyph that belongs to no letter tokenizes to that
/// glyph.
pub proof fn law_other_char(c: char)
    requires
        !is_letter_char(c),
    ensures
        glyphs(seq![c]) == seq![Character::Other(c)],
{
    let s = seq![c];
    lemma_first_glyph(s);
    assert(s.skip(1) =~= Seq::<char>::empty());
    assert(glyphs(s.skip(1)) =~= Seq::<Character>::empty());
    assert(glyphs(s) =~= seq![Character::Other(c)]);
}

/// Tokenizing a letter's spelling gives that letter, and nothing else.
pub proof fn law_round_trip_letter(a: PaliAlphabet)
    ensures
        glyphs(a.spelling()) == seq![Character::Pali(a)],
{
    let g = seq![Character::Pali(a)];
    assert(g.drop_first() =~= Seq::<Character>::empty());
    assert(spell(g.drop_first()) =~= Seq::<char>::empty());
    assert(spell(g) =~= a.spelling());
    assert forall|i: int| 0 <= i < g.len() implies is_glyph(#[trigger] g[i]) by {}
    law_round_trip(g);
}

/// A glyph that tokenizing can yield: a letter, or a character that belongs
/// to no letter.
pub open spec fn is_glyph(c: Character) -> bool {
    c is Other ==> !is_letter_char(c->Other_0)
}

/// No consonant that has an aspirated partner is followed at once by the
/// letter `h`.
pub open spec fn no_stray_h(g: Seq<Character>) -> bool {
    forall|i: int|
        0 <= i && i + 1 < g.len() ==> !(#[trigger] g[i] is Pali && aspirate_of(g[i]->Pali_0) is Some
            && g[i + 1] == Character::Pali(PaliAlphabet::H))
}

/// The first character of what a nonempty sequence of glyphs spells is the
/// first character of its first glyph.
proof fn lemma_spell_first(g: Seq<Character>)
    requires
        g.len() > 0,
    ensures
        spell(g).len() >= glyph_spelling(g[0]).len() >= 1,
        spell(g).take(glyph_spelling(g[0]).len() as int) == glyph_spelling(g[0]),
        spell(g).skip(glyph_spelling(g[0]).len() as int) == spell(g.drop_first()),
{
    let head = glyph_spelling(g[0]);
    let tail = spell(g.drop_first());
    match g[0] {
        Character::Pali(a) => {
            lemma_spelling_shape(a);
        },
        Character::Other(_) => {},
    }
    assert((head + tail).take(head.len() as int) =~= head);
    assert((head + tail).skip(head.len() as int) =~= tail);
}

/// A glyph more at the end of a sequence adds its spelling at the end of
/// the text.
pub proof fn lemma_spell_push(g: Seq<Character>, c: Character)
    ensures
        spell(g.push(c)) == spell(g) + glyph_spelling(c),
    decreases g.len(),
{
    if g.len() == 0 {
        assert(g.push(c).drop_first() =~= Seq::<Character>::empty());
        assert(spell(g.push(c).drop_first()) =~= Seq::<char>::empty());
        assert(g.push(c)[0] == c);
        assert(spell(g.push(c)) =~= spell(g) + glyph_spelling(c));
    } else {
        lemma_spell_push(g.drop_first(), c);
        assert(g.push(c).drop_first() =~= g.drop_first().push(c));
        assert(g.push(c)[0] == g[0]);
        assert(spell(g.push(c)) =~= spell(g) + glyph_spelling(c));
    }
}

/// Spelling glyphs out and tokenizing the text gives the same glyphs back,
/// as long as every glyph is one that tokenizing can yield and no consonant
/// with an aspirated partner is followed at once by the letter `h`.
pub proof fn law_round_trip(g: Seq<Character>)
    requires
        forall|i: int| 0 <= i < g.len() ==> is_glyph(#[trigger] g[i]),
        no_stray_h(g),
    ensures
        glyphs(spell(g)) == g,
    decreases g.len(),
{
    if g.len() == 0 {
        assert(glyphs(spell(g)) =~= g);
    } else {
        let s = spell(g);
        let rest = g.drop_first();
        lemma_spell_first(g);
        lemma_first_glyph(s);
        let n = glyph_spelling(g[0]).len() as int;
        assert(s[0] == s.take(n)[0]);
        match g[0] {
            Character::Pali(a) => {
                lemma_spelling_shape(a);
                assert(g[0] == letter_glyph(a));
                if n == 2 {
                    assert(s[1] == s.take(n)[1]);
                } else if s.len() >= 2 && s[1] == 'h' && aspirate_of(a) is Some {
                    assert(rest.len() > 0);
                    lemma_spell_first(rest);
                    let m = glyph_spelling(rest[0]).len() as int;
                    assert(s[1] == s.skip(n)[0]);
                    assert(spell(rest)[0] == spell(rest).take(m)[0]);
                    assert(rest[0] == g[1]);
                    match rest[0] {
                        Character::Pali(b) => {
                            lemma_spelling_shape(b);
                            if b.spelling().len() == 1 {
                                lemma_letter_by_shape(b, PaliAlphabet::H);
                            }
                            assert(g[0] is Pali);
                            assert(false);
                        },
                        Character::Other(x) => {
                            assert(is_glyph(g[1]));
                            assert(PaliAlphabet::H.spelling()[0] == x);
                            assert(false);
                        },
                    }
                }
            },
            Character::Other(x) => {
                assert(is_glyph(g[0]));
            },
        }
        assert(first_glyph(s) == g[0]);
        assert(first_glyph_len(s) == n);
        assert forall|i: int| 0 <= i < rest.len() implies is_glyph(#[trigger] rest[i]) by {
            assert(rest[i] == g[i + 1]);
        }
        assert(no_stray_h(rest)) by {
            assert forall|i: int| 0 <= i && i + 1 < rest.len() implies !(#[trigger] rest[i] is Pali
                && aspirate_of(rest[i]->Pali_0) is Some && rest[i + 1] == Character::Pali(
                PaliAlphabet::H,
            )) by {
                assert(rest[i] == g[i + 1]);
                assert(rest[i + 1] == g[i + 2]);
            }
        }
        law_round_trip(rest);
        assert(glyphs(s) =~= seq![g[0]] + rest);
        assert(seq![g[0]] + rest =~= g);
    }
}

/// The glyphs that stand for a sequence of letters.
pub open spec fn letters(w: Seq<PaliAlphabet>) -> Seq<Character> {
    w.map_values(|a: PaliAlphabet| Character::Pali(a))
}

/// Joining the spellings of any letters and tokenizing the text gives the
/// same letters back, as long as no consonant with an aspirated partner is
/// followed at once by the letter `h`.
pub proof fn law_round_trip_letters(w: Seq<PaliAlphabet>)
    requires
        forall|i: int|
            0 <= i && i + 1 < w.len() ==> !(aspirate_of(#[trigger] w[i]) is Some && w[i + 1]
                == PaliAlphabet::H),
    ensures
        glyphs(spell(letters(w))) == letters(w),
{
    let g = letters(w);
    assert forall|i: int| 0 <= i < g.len() implies is_glyph(#[trigger] g[i]) by {}
    assert(no_stray_h(g)) by {
        assert forall|i: int| 0 <= i && i + 1 < g.len() implies !(#[trigger] g[i] is Pali
            && aspirate_of(g[i]->Pali_0) is Some && g[i + 1] == Character::Pali(
            PaliAlphabet::H,
        )) by {
            assert(g[i] == Character::Pali(w[i]));
            assert(g[i + 1] == Character::Pali(w[i + 1]));
        }
    }
    law_round_trip(g);
}

/// Tokenizing loses nothing: the spellings of a text's glyphs, joined, are
/// the text.
pub proof fn law_spell_glyphs(s: Seq<char>)
    ensures
        spell(glyphs(s)) == s,
    decreases s.len(),
{
    if s.len() == 0 {
        assert(spell(glyphs(s)) =~= s);
    } else {
        lemma_glyphs_step(s);
        let n = first_glyph_len(s);
        law_spell_glyphs(s.skip(n));
        assert(glyphs(s).drop_first() =~= glyphs(s).skip(1));
        lemma_first_glyph_spelling(s);
        assert(s.take(n) + s.skip(n) =~= s);
    }
}

/// The first glyph of a text is spelled by the characters that it takes.
proof fn lemma_first_glyph_spelling(s: Seq<char>)
    requires
        s.len() > 0,
    ensures
        glyph_spelling(first_glyph(s)) == s.take(first_glyph_len(s)),
{
    let n = first_glyph_len(s);
    if exists|a: PaliAlphabet| a.spelling() == s.take(n) {
    } else {
        assert(n == 1);
        assert(seq![s[0]] =~= s.take(1));
    }
}

/// The first character of a letter's spelling spells a letter by itself.
proof fn lemma_first_char_spells(a: PaliAlphabet)
    ensures
        letter_spelled(seq![a.spelling()[0]]) is Some,
{
    lemma_spelling_shape(a);
    if a.spelling().len() == 1 {
        assert(a.spelling() =~= seq![a.spelling()[0]]);
        lemma_letter_spelled(a);
    } else {
        law_two_character_spellings(a);
        let b = choose|b: PaliAlphabet| aspirate_of(b) == Some(a);
        lemma_aspirate_spelling(b, a);
        lemma_spelling_shape(b);
        assert(b.spelling().push('h')[0] == b.spelling()[0]);
        assert(b.spelling() =~= seq![a.spelling()[0]]);
        lemma_letter_spelled(b);
    }
}

/// The first glyph of a text is one that tokenizing can yield, and it stands
/// for the characters that it takes.
proof fn lemma_first_glyph_is_glyph(s: Seq<char>)
    requires
        s.len() > 0,
    ensures
        is_glyph(first_glyph(s)),
        first_glyph(s) is Pali ==> first_glyph(s)->Pali_0.spelling() == s.take(first_glyph_len(s)),
{
    let n = first_glyph_len(s);
    if letter_spelled(s.take(n)) is None {
        assert(first_glyph(s) == Character::Other(s[0]));
        assert(n == 1);
        if is_letter_char(s[0]) {
            let a = choose|a: PaliAlphabet| a.spelling()[0] == s[0];
            lemma_first_char_spells(a);
            assert(seq![a.spelling()[0]] =~= s.take(1));
        }
    }
}

/// Tokenizing yields letters and characters that belong to no letter, and
/// never a consonant with an aspirated partner followed at once by the letter
/// `h`: the two are read as the partner.
pub proof fn law_glyphs_well_formed(s: Seq<char>)
    ensures
        forall|i: int| 0 <= i < glyphs(s).len() ==> is_glyph(#[trigger] glyphs(s)[i]),
        no_stray_h(glyphs(s)),
    decreases s.len(),
{
    if s.len() > 0 {
        let g = glyphs(s);
        let n = first_glyph_len(s);
        let rest = s.skip(n);
        lemma_glyphs_step(s);
        lemma_first_glyph_is_glyph(s);
        law_glyphs_well_formed(rest);
        assert forall|i: int| 0 <= i < g.len() implies is_glyph(#[trigger] g[i]) by {
            if i > 0 {
                assert(g[i] == g.skip(1)[i - 1]);
            }
        }
        assert forall|i: int| 0 <= i && i + 1 < g.len() implies !(#[trigger] g[i] is Pali
            && aspirate_of(g[i]->Pali_0) is Some && g[i + 1] == Character::Pali(
            PaliAlphabet::H,
        )) by {
            if i > 0 {
                assert(g[i] == g.skip(1)[i - 1]);
                assert(g[i + 1] == g.skip(1)[i]);
            } else if g[0] is Pali && aspirate_of(g[0]->Pali_0) is Some && g[1]
                == Character::Pali(PaliAlphabet::H) {
                let a = g[0]->Pali_0;
                let b = choose|b: PaliAlphabet| aspirate_of(a) == Some(b);
                lemma_aspirate_spelling(a, b);
                lemma_spelling_shape(a);
                lemma_spelling_shape(b);
                // the consonant took one character, and an `h` follows it
                assert(n == 1) by {
                    law_two_character_spellings(a);
                    assert(a.spelling() == s.take(n));
                }
                assert(g[1] == g.skip(1)[0]);
                lemma_glyphs_step(rest);
                lemma_first_glyph_is_glyph(rest);
                let m = first_glyph_len(rest);
                assert(PaliAlphabet::H.spelling() == rest.take(m));
                assert(rest.take(m)[0] == rest[0]);
                assert(rest[0] == s[1]);
                assert(s[1] == 'h');
                // so the two characters spell the partner, which takes both
                assert(b.spelling() =~= s.take(2));
                lemma_letter_spelled(b);
                assert(false);
            }
        }
    } else {
        assert(glyphs(s) =~= Seq::<Character>::empty());
    }
}

/// Two texts with the same glyphs are the same text.
pub proof fn law_glyphs_injective(s1: Seq<char>, s2: Seq<char>)
    requires
        glyphs(s1) == glyphs(s2),
    ensures
        s1 == s2,
{
    law_spell_glyphs(s1);
    law_spell_glyphs(s2);
}

/// The place of a glyph in the order of all glyphs: a letter's place in the
/// alphabet, or, for another character, its code point moved past the
/// letters.
pub open spec fn rank(c: Character) -> int {
    match c {
        Character::Pali(a) => a.ordinal(),
        Character::Other(x) => 41 + x as int,
    }
}

/// Glyphs compare as their ranks do, and only a glyph and itself tie.
pub proof fn law_glyph_order_by_rank(c1: Character, c2: Character)
    ensures
        glyph_order(c1, c2) == sign_of(rank(c1) - rank(c2)),
        glyph_order(c1, c2) == 0 <==> c1 == c2,
{
    match (c1, c2) {
        (Character::Pali(a), Character::Pali(b)) => {
            law_ordinal_injective(a, b);
        },
        (Character::Pali(a), Character::Other(_)) => {
            law_ordinal_injective(a, a);
        },
        (Character::Other(_), Character::Pali(b)) => {
            law_ordinal_injective(b, b);
        },
        (Character::Other(x), Character::Other(y)) => {
            assert(x as int == y as int ==> x == y);
        },
    }
}

/// Each pair of sequences either differs first at some position or ties at
/// every position that both have.
proof fn lemma_difference_or_ties(a: Seq<Character>, b: Seq<Character>, n: int)
    requires
        0 <= n <= a.len(),
        n <= b.len(),
    ensures
        (exists|i: int| 0 <= i < n && first_difference(a, b, i)) || (forall|j: int|
            0 <= j < n ==> #[trigger] glyph_order(a[j], b[j]) == 0),
    decreases n,
{
    if n > 0 {
        lemma_difference_or_ties(a, b, n - 1);
        if exists|i: int| 0 <= i < n - 1 && first_difference(a, b, i) {
            let i = choose|i: int| 0 <= i < n - 1 && first_difference(a, b, i);
            assert(0 <= i < n && first_difference(a, b, i));
        } else if glyph_order(a[n - 1], b[n - 1]) != 0 {
            assert(first_difference(a, b, n - 1));
        }
    }
}

/// The number of glyphs that both sequences have.
pub open spec fn common_len(a: Seq<Character>, b: Seq<Character>) -> int {
    if a.len() <= b.len() {
        a.len() as int
    } else {
        b.len() as int
    }
}

/// Where two sequences part: at their first difference or, where they have
/// none, at the end of the shorter one.
pub open spec fn parting(a: Seq<Character>, b: Seq<Character>) -> int {
    if exists|i: int| first_difference(a, b, i) {
        choose|i: int| first_difference(a, b, i)
    } else {
        common_len(a, b)
    }
}

/// Up to where they part two sequences hold the same glyphs; the glyphs at
/// that place, or the lengths where one sequence ends there, give the order.
proof fn lemma_parting(a: Seq<Character>, b: Seq<Character>)
    ensures
        0 <= parting(a, b) <= common_len(a, b),
        forall|j: int| 0 <= j < parting(a, b) ==> #[trigger] a[j] == b[j],
        parting(a, b) < common_len(a, b) ==> glyphs_order(a, b) == glyph_order(
            a[parting(a, b)],
            b[parting(a, b)],
        ) && glyphs_order(a, b) != 0,
        parting(a, b) == common_len(a, b) ==> glyphs_order(a, b) == sign_of(a.len() - b.len()),
{
    let p = parting(a, b);
    if exists|i: int| first_difference(a, b, i) {
        lemma_order_at_difference(a, b, p);
        assert forall|j: int| 0 <= j < p implies #[trigger] a[j] == b[j] by {
            assert(glyph_order(a[j], b[j]) == 0);
            law_glyph_order_by_rank(a[j], b[j]);
        }
    } else {
        lemma_difference_or_ties(a, b, p);
        assert forall|j: int| 0 <= j < p implies #[trigger] a[j] == b[j] by {
            assert(glyph_order(a[j], b[j]) == 0);
            law_glyph_order_by_rank(a[j], b[j]);
        }
    }
}

/// A place where two sequences hold different glyphs, after holding the same
/// glyphs before it, is where they part.
proof fn lemma_parting_at(a: Seq<Character>, b: Seq<Character>, p: int)
    requires
        0 <= p <= common_len(a, b),
        forall|j: int| 0 <= j < p ==> #[trigger] a[j] == b[j],
        p < common_len(a, b) ==> a[p] != b[p],
    ensures
        p < common_len(a, b) ==> glyphs_order(a, b) == glyph_order(a[p], b[p]),
        p == common_len(a, b) ==> glyphs_order(a, b) == sign_of(a.len() - b.len()),
{
    assert forall|j: int| 0 <= j < p implies #[trigger] glyph_order(a[j], b[j]) == 0 by {
        law_glyph_order_by_rank(a[j], b[j]);
    }
    if p < common_len(a, b) {
        law_glyph_order_by_rank(a[p], b[p]);
        assert(first_difference(a, b, p));
        lemma_order_at_difference(a, b, p);
    } else {
        lemma_order_without_difference(a, b);
    }
}

/// The order of two glyph sequences is -1, 0 or 1; it is 0 for equal
/// sequences only, and turns round when the sequences change places.
pub proof fn law_glyphs_order_antisymmetric(a: Seq<Character>, b: Seq<Character>)
    ensures
        -1 <= glyphs_order(a, b) <= 1,
        glyphs_order(a, b) == -glyphs_order(b, a),
        glyphs_order(a, b) == 0 <==> a == b,
{
    lemma_parting(a, b);
    let p = parting(a, b);
    assert forall|j: int| 0 <= j < p implies #[trigger] b[j] == a[j] by {
        assert(a[j] == b[j]);
    }
    if p < common_len(a, b) {
        law_glyph_order_by_rank(a[p], b[p]);
        law_glyph_order_by_rank(b[p], a[p]);
    }
    lemma_parting_at(b, a, p);
    if glyphs_order(a, b) == 0 {
        assert(a =~= b);
    }
    if a == b {
        assert(p == common_len(a, b)) by {
            if p < common_len(a, b) {
                law_glyph_order_by_rank(a[p], b[p]);
            }
        }
    }
}

/// A sequence that sorts before a second, which sorts before a third, sorts
/// before the third.
pub proof fn law_glyphs_order_transitive(a: Seq<Character>, b: Seq<Character>, c: Seq<Character>)
    requires
        glyphs_order(a, b) < 0,
        glyphs_order(b, c) < 0,
    ensures
        glyphs_order(a, c) < 0,
{
    lemma_parting(a, b);
    lemma_parting(b, c);
    let p = parting(a, b);
    let q = parting(b, c);
    let m = if p <= q {
        p
    } else {
        q
    };
    assert forall|j: int| 0 <= j < m implies #[trigger] a[j] == c[j] by {
        assert(a[j] == b[j]);
        assert(b[j] == c[j]);
    }
    assert(m <= common_len(a, c));
    if m < common_len(a, c) {
        law_glyph_order_by_rank(a[m], c[m]);
        if p < common_len(a, b) {
            law_glyph_order_by_rank(a[p], b[p]);
        }
        if q < common_len(b, c) {
            law_glyph_order_by_rank(b[q], c[q]);
        }
        if p < q {
            assert(b[p] == c[p]);
        }
        if q < p {
            assert(a[q] == b[q]);
        }
    }
    lemma_parting_at(a, c, m);
}

/// Two letters' spellings sort as the letters stand in the alphabet.
pub proof fn law_order_of_letters(a: PaliAlphabet, b: PaliAlphabet)
    ensures
        text_order(a.spelling(), b.spelling()) == sign_of(a.ordinal() - b.ordinal()),
{
    law_round_trip_letter(a);
    law_round_trip_letter(b);
    let ga = seq![Character::Pali(a)];
    let gb = seq![Character::Pali(b)];
    if a.ordinal() != b.ordinal() {
        assert(first_difference(ga, gb, 0));
        lemma_order_at_difference(ga, gb, 0);
    } else {
        lemma_order_without_difference(ga, gb);
    }
}

/// Every letter sorts before every character that belongs to no letter.
pub proof fn law_letter_before_other(a: PaliAlphabet, c: char)
    requires
        !is_letter_char(c),
    ensures
        text_order(a.spelling(), seq![c]) == -1,
        text_order(seq![c], a.spelling()) == 1,
{
    law_round_trip_letter(a);
    law_other_char(c);
    let ga = seq![Character::Pali(a)];
    let gc = seq![Character::Other(c)];
    assert(first_difference(ga, gc, 0));
    lemma_order_at_difference(ga, gc, 0);
    assert(first_difference(gc, ga, 0));
    lemma_order_at_difference(gc, ga, 0);
}

/// The order of two texts is -1, 0 or 1; it is 0 for one and the same text
/// only, and turns round when the texts change places.
pub proof fn law_text_order_antisymmetric(s1: Seq<char>, s2: Seq<char>)
    ensures
        -1 <= text_order(s1, s2) <= 1,
        text_order(s1, s2) == -text_order(s2, s1),
        text_order(s1, s2) == 0 <==> s1 == s2,
{
    law_glyphs_order_antisymmetric(glyphs(s1), glyphs(s2));
    if glyphs(s1) == glyphs(s2) {
        law_glyphs_injective(s1, s2);
    }
}

/// A text that sorts before a second, which sorts before a third, sorts
/// before the third.
pub proof fn law_text_order_transitive(s1: Seq<char>, s2: Seq<char>, s3: Seq<char>)
    requires
        text_order(s1, s2) < 0,
        text_order(s2, s3) < 0,
    ensures
        text_order(s1, s3) < 0,
{
    law_glyphs_order_transitive(glyphs(s1), glyphs(s2), glyphs(s3));
}

} // verus!
