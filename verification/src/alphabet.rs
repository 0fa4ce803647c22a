use vstd::prelude::*;
use vstd::std_specs::iter::IteratorSpec;
use std::str::Chars;

pub mod laws;

verus! {

/// The forty-one letters of the Pāli alphabet, listed in dictionary order:
/// vowels, then gutturals, palatals, retroflexes, dentals and labials, then the
/// semivowels, and the niggahīta last.
#[derive(Debug, Clone, Copy, PartialEq, Eq, Structural, PartialOrd, Ord, Hash)]
pub enum PaliAlphabet {
    A,
    AA,
    I,
    II,
    U,
    UU,
    E,
    O,
    K,
    KH,
    G,
    GH,
    QuoteN,
    C,
    CH,
    J,
    JH,
    TildeN,
    DotT,
    DotTH,
    DotD,
    DotDH,
    DotN,
    T,
    TH,
    D,
    DH,
    N,
    P,
    PH,
    B,
    BH,
    M,
    Y,
    R,
    L,
    V,
    S,
    H,
    DotL,
    DotM,
}

/// The canonical roman spelling of each letter, in dictionary order.
pub const PALI_ALPHABET_ROMAN: [&'static str; 41] = [
    "a", "ā", "i", "ī", "u", "ū", "e", "o",
    "k", "kh", "g", "gh", "ṅ",
    "c", "ch", "j", "jh", "ñ",
    "ṭ", "ṭh", "ḍ", "ḍh", "ṇ",
    "t", "th", "d", "dh", "n",
    "p", "ph", "b", "bh", "m",
    "y", "r", "l", "v", "s", "h", "ḷ",
    "ṃ",
];

impl PaliAlphabet {
    /// Position of the letter in dictionary order, from 0 to 40.
    pub open spec fn ordinal(self) -> int {
        match self {
            PaliAlphabet::A => 0,
            PaliAlphabet::AA => 1,
            PaliAlphabet::I => 2,
            PaliAlphabet::II => 3,
            PaliAlphabet::U => 4,
            PaliAlphabet::UU => 5,
            PaliAlphabet::E => 6,
            PaliAlphabet::O => 7,
            PaliAlphabet::K => 8,
            PaliAlphabet::KH => 9,
            PaliAlphabet::G => 10,
            PaliAlphabet::GH => 11,
            PaliAlphabet::QuoteN => 12,
            PaliAlphabet::C => 13,
            PaliAlphabet::CH => 14,
            PaliAlphabet::J => 15,
            PaliAlphabet::JH => 16,
            PaliAlphabet::TildeN => 17,
            PaliAlphabet::DotT => 18,
            PaliAlphabet::DotTH => 19,
            PaliAlphabet::DotD => 20,
            PaliAlphabet::DotDH => 21,
            PaliAlphabet::DotN => 22,
            PaliAlphabet::T => 23,
            PaliAlphabet::TH => 24,
            PaliAlphabet::D => 25,
            PaliAlphabet::DH => 26,
            PaliAlphabet::N => 27,
            PaliAlphabet::P => 28,
            PaliAlphabet::PH => 29,
            PaliAlphabet::B => 30,
            PaliAlphabet::BH => 31,
            PaliAlphabet::M => 32,
            PaliAlphabet::Y => 33,
            PaliAlphabet::R => 34,
            PaliAlphabet::L => 35,
            PaliAlphabet::V => 36,
            PaliAlphabet::S => 37,
            PaliAlphabet::H => 38,
            PaliAlphabet::DotL => 39,
            PaliAlphabet::DotM => 40,
        }
    }

    /// The canonical roman spelling of the letter.
    pub open spec fn spelling(self) -> Seq<char> {
        match self {
            PaliAlphabet::A => seq!['a'],
            PaliAlphabet::AA => seq!['ā'],
            PaliAlphabet::I => seq!['i'],
            PaliAlphabet::II => seq!['ī'],
            PaliAlphabet::U => seq!['u'],
            PaliAlphabet::UU => seq!['ū'],
            PaliAlphabet::E => seq!['e'],
            PaliAlphabet::O => seq!['o'],
            PaliAlphabet::K => seq!['k'],
            PaliAlphabet::KH => seq!['k', 'h'],
            PaliAlphabet::G => seq!['g'],
            PaliAlphabet::GH => seq!['g', 'h'],
            PaliAlphabet::QuoteN => seq!['ṅ'],
            PaliAlphabet::C => seq!['c'],
            PaliAlphabet::CH => seq!['c', 'h'],
            PaliAlphabet::J => seq!['j'],
            PaliAlphabet::JH => seq!['j', 'h'],
            PaliAlphabet::TildeN => seq!['ñ'],
            PaliAlphabet::DotT => seq!['ṭ'],
            PaliAlphabet::DotTH => seq!['ṭ', 'h'],
            PaliAlphabet::DotD => seq!['ḍ'],
            PaliAlphabet::DotDH => seq!['ḍ', 'h'],
            PaliAlphabet::DotN => seq!['ṇ'],
            PaliAlphabet::T => seq!['t'],
            PaliAlphabet::TH => seq!['t', 'h'],
            PaliAlphabet::D => seq!['d'],
            PaliAlphabet::DH => seq!['d', 'h'],
            PaliAlphabet::N => seq!['n'],
            PaliAlphabet::P => seq!['p'],
            PaliAlphabet::PH => seq!['p', 'h'],
            PaliAlphabet::B => seq!['b'],
            PaliAlphabet::BH => seq!['b', 'h'],
            PaliAlphabet::M => seq!['m'],
            PaliAlphabet::Y => seq!['y'],
            PaliAlphabet::R => seq!['r'],
            PaliAlphabet::L => seq!['l'],
            PaliAlphabet::V => seq!['v'],
            PaliAlphabet::S => seq!['s'],
            PaliAlphabet::H => seq!['h'],
            PaliAlphabet::DotL => seq!['ḷ'],
            PaliAlphabet::DotM => seq!['ṃ'],
        }
    }

    /// Computes the letter's position in dictionary order.
    pub fn ordinal_of(self) -> (r: usize)
        ensures
            r == self.ordinal(),
            r <= 40,
    {
        match self {
            PaliAlphabet::A => 0,
            PaliAlphabet::AA => 1,
            PaliAlphabet::I => 2,
            PaliAlphabet::II => 3,
            PaliAlphabet::U => 4,
            PaliAlphabet::UU => 5,
            PaliAlphabet::E => 6,
            PaliAlphabet::O => 7,
            PaliAlphabet::K => 8,
            PaliAlphabet::KH => 9,
            PaliAlphabet::G => 10,
            PaliAlphabet::GH => 11,
            PaliAlphabet::QuoteN => 12,
            PaliAlphabet::C => 13,
            PaliAlphabet::CH => 14,
            PaliAlphabet::J => 15,
            PaliAlphabet::JH => 16,
            PaliAlphabet::TildeN => 17,
            PaliAlphabet::DotT => 18,
            PaliAlphabet::DotTH => 19,
            PaliAlphabet::DotD => 20,
            PaliAlphabet::DotDH => 21,
            PaliAlphabet::DotN => 22,
            PaliAlphabet::T => 23,
            PaliAlphabet::TH => 24,
            PaliAlphabet::D => 25,
            PaliAlphabet::DH => 26,
            PaliAlphabet::N => 27,
            PaliAlphabet::P => 28,
            PaliAlphabet::PH => 29,
            PaliAlphabet::B => 30,
            PaliAlphabet::BH => 31,
            PaliAlphabet::M => 32,
            PaliAlphabet::Y => 33,
            PaliAlphabet::R => 34,
            PaliAlphabet::L => 35,
            PaliAlphabet::V => 36,
            PaliAlphabet::S => 37,
            PaliAlphabet::H => 38,
            PaliAlphabet::DotL => 39,
            PaliAlphabet::DotM => 40,
        }
    }

    /// The canonical roman spelling of the letter.
    pub fn spelling_of(self) -> (r: &'static str)
        ensures
            r@ == self.spelling(),
    {
        proof {
            reveal_strlit("a");
            reveal_strlit("ā");
            reveal_strlit("i");
            reveal_strlit("ī");
            reveal_strlit("u");
            reveal_strlit("ū");
            reveal_strlit("e");
            reveal_strlit("o");
            reveal_strlit("k");
            reveal_strlit("kh");
            reveal_strlit("g");
            reveal_strlit("gh");
            reveal_strlit("ṅ");
            reveal_strlit("c");
            reveal_strlit("ch");
            reveal_strlit("j");
            reveal_strlit("jh");
            reveal_strlit("ñ");
            reveal_strlit("ṭ");
            reveal_strlit("ṭh");
            reveal_strlit("ḍ");
            reveal_strlit("ḍh");
            reveal_strlit("ṇ");
            reveal_strlit("t");
            reveal_strlit("th");
            reveal_strlit("d");
            reveal_strlit("dh");
            reveal_strlit("n");
            reveal_strlit("p");
            reveal_strlit("ph");
            reveal_strlit("b");
            reveal_strlit("bh");
            reveal_strlit("m");
            reveal_strlit("y");
            reveal_strlit("r");
            reveal_strlit("l");
            reveal_strlit("v");
            reveal_strlit("s");
            reveal_strlit("h");
            reveal_strlit("ḷ");
            reveal_strlit("ṃ");
        }
        let r = PALI_ALPHABET_ROMAN[self.ordinal_of()];
        assert(r@ =~= self.spelling());
        r
    }

    /// The letter at a given position of the dictionary order, if there is one.
    pub fn from_ordinal(i: usize) -> (r: Option<PaliAlphabet>)
        ensures
            i <= 40 ==> r is Some && r->0.ordinal() == i,
            i > 40 ==> r is None,
    {
        match i {
            0 => Some(PaliAlphabet::A),
            1 => Some(PaliAlphabet::AA),
            2 => Some(PaliAlphabet::I),
            3 => Some(PaliAlphabet::II),
            4 => Some(PaliAlphabet::U),
            5 => Some(PaliAlphabet::UU),
            6 => Some(PaliAlphabet::E),
            7 => Some(PaliAlphabet::O),
            8 => Some(PaliAlphabet::K),
            9 => Some(PaliAlphabet::KH),
            10 => Some(PaliAlphabet::G),
            11 => Some(PaliAlphabet::GH),
            12 => Some(PaliAlphabet::QuoteN),
            13 => Some(PaliAlphabet::C),
            14 => Some(PaliAlphabet::CH),
            15 => Some(PaliAlphabet::J),
            16 => Some(PaliAlphabet::JH),
            17 => Some(PaliAlphabet::TildeN),
            18 => Some(PaliAlphabet::DotT),
            19 => Some(PaliAlphabet::DotTH),
            20 => Some(PaliAlphabet::DotD),
            21 => Some(PaliAlphabet::DotDH),
            22 => Some(PaliAlphabet::DotN),
            23 => Some(PaliAlphabet::T),
            24 => Some(PaliAlphabet::TH),
            25 => Some(PaliAlphabet::D),
            26 => Some(PaliAlphabet::DH),
            27 => Some(PaliAlphabet::N),
            28 => Some(PaliAlphabet::P),
            29 => Some(PaliAlphabet::PH),
            30 => Some(PaliAlphabet::B),
            31 => Some(PaliAlphabet::BH),
            32 => Some(PaliAlphabet::M),
            33 => Some(PaliAlphabet::Y),
            34 => Some(PaliAlphabet::R),
            35 => Some(PaliAlphabet::L),
            36 => Some(PaliAlphabet::V),
            37 => Some(PaliAlphabet::S),
            38 => Some(PaliAlphabet::H),
            39 => Some(PaliAlphabet::DotL),
            40 => Some(PaliAlphabet::DotM),
            _ => None,
        }
    }
}

impl From<PaliAlphabet> for usize {
    /// The letter's position in dictionary order.
    fn from(a: PaliAlphabet) -> (r: usize) {
        a.ordinal_of()
    }
}

impl vstd::std_specs::convert::FromSpecImpl<PaliAlphabet> for usize {
    open spec fn obeys_from_spec() -> bool {
        true
    }

    open spec fn from_spec(a: PaliAlphabet) -> usize {
        a.ordinal() as usize
    }
}

/// A number that is no letter's position in dictionary order.
#[derive(Debug, Clone, Copy, PartialEq, Eq, Structural)]
pub struct NotALetter {
    pub number: usize,
}

impl TryFrom<usize> for PaliAlphabet {
    type Error = NotALetter;

    /// The letter at a given position of the dictionary order.
    fn try_from(i: usize) -> (r: Result<PaliAlphabet, NotALetter>) {
        match PaliAlphabet::from_ordinal(i) {
            Some(a) => {
                proof {
                    crate::alphabet::laws::law_ordinals_dense(i as int);
                }
                Ok(a)
            },
            None => Err(NotALetter { number: i }),
        }
    }
}

impl vstd::std_specs::convert::TryFromSpecImpl<usize> for PaliAlphabet {
    open spec fn obeys_try_from_spec() -> bool {
        true
    }

    open spec fn try_from_spec(i: usize) -> Result<PaliAlphabet, NotALetter> {
        if i <= 40 {
            Ok(choose|a: PaliAlphabet| a.ordinal() == i)
        } else {
            Err(NotALetter { number: i })
        }
    }
}

/// One unit of a tokenized text: a letter of the alphabet, or a single
/// character that belongs to no letter.
#[derive(Copy, Clone, Debug, Eq, PartialEq, Structural)]
pub enum Character {
    Pali(PaliAlphabet),
    Other(char),
}

/// The glyph that stands for a letter.
pub open spec fn letter_glyph(a: PaliAlphabet) -> Character {
    Character::Pali(a)
}

/// The glyph that stands for a character that belongs to no letter.
pub open spec fn other_glyph(c: char) -> Character {
    Character::Other(c)
}

/// The sign of an integer: -1, 0 or 1.
pub open spec fn sign_of(d: int) -> int {
    if d < 0 {
        -1
    } else if d > 0 {
        1
    } else {
        0
    }
}

/// The letter whose canonical spelling is `s`, if there is one.
pub open spec fn letter_spelled(s: Seq<char>) -> Option<PaliAlphabet> {
    if exists|a: PaliAlphabet| a.spelling() == s {
        Some(choose|a: PaliAlphabet| a.spelling() == s)
    } else {
        None
    }
}

/// Some letter's spelling begins with this character.
pub open spec fn is_letter_char(c: char) -> bool {
    exists|a: PaliAlphabet| a.spelling()[0] == c
}

/// How many characters the first glyph of a nonempty text takes: two where the
/// first two characters spell a letter, one otherwise.
pub open spec fn first_glyph_len(s: Seq<char>) -> int {
    if s.len() >= 2 && letter_spelled(s.take(2)) is Some {
        2
    } else {
        1
    }
}

/// The first glyph of a nonempty text: the letter spelled by its longest
/// prefix that spells one, or else its first character as it stands.
pub open spec fn first_glyph(s: Seq<char>) -> Character {
    match letter_spelled(s.take(first_glyph_len(s))) {
        Some(a) => letter_glyph(a),
        None => other_glyph(s[0]),
    }
}

/// The glyphs of a text, from left to right.
pub open spec fn glyphs(s: Seq<char>) -> Seq<Character>
    decreases s.len(),
{
    if s.len() == 0 {
        Seq::empty()
    } else {
        seq![first_glyph(s)] + glyphs(s.skip(first_glyph_len(s)))
    }
}

/// A letter is determined by the first character and the length of its
/// spelling.
pub proof fn lemma_letter_by_shape(a: PaliAlphabet, b: PaliAlphabet)
    requires
        a.spelling()[0] == b.spelling()[0],
        a.spelling().len() == b.spelling().len(),
    ensures
        a == b,
{
}

/// No two letters share a spelling.
pub proof fn lemma_spelling_injective(a: PaliAlphabet, b: PaliAlphabet)
    requires
        a.spelling() == b.spelling(),
    ensures
        a == b,
{
    lemma_letter_by_shape(a, b);
}

/// A spelling is one character, or two of which the second is `h`.
pub proof fn lemma_spelling_shape(a: PaliAlphabet)
    ensures
        a.spelling().len() == 1 || a.spelling().len() == 2,
        a.spelling().len() == 2 ==> a.spelling()[1] == 'h',
{
}

/// What `letter_spelled` finds for a letter's own spelling is that letter.
pub proof fn lemma_letter_spelled(a: PaliAlphabet)
    ensures
        letter_spelled(a.spelling()) == Some(a),
{
    let b = choose|b: PaliAlphabet| b.spelling() == a.spelling();
    lemma_spelling_injective(a, b);
}

/// The aspirated partner of a consonant, for the ten consonants that have one.
pub open spec fn aspirate_of(a: PaliAlphabet) -> Option<PaliAlphabet> {
    match a {
        PaliAlphabet::K => Some(PaliAlphabet::KH),
        PaliAlphabet::G => Some(PaliAlphabet::GH),
        PaliAlphabet::C => Some(PaliAlphabet::CH),
        PaliAlphabet::J => Some(PaliAlphabet::JH),
        PaliAlphabet::DotT => Some(PaliAlphabet::DotTH),
        PaliAlphabet::DotD => Some(PaliAlphabet::DotDH),
        PaliAlphabet::T => Some(PaliAlphabet::TH),
        PaliAlphabet::D => Some(PaliAlphabet::DH),
        PaliAlphabet::P => Some(PaliAlphabet::PH),
        PaliAlphabet::B => Some(PaliAlphabet::BH),
        _ => None,
    }
}

/// The aspirated partner is spelled as the consonant followed by `h`, and
/// every two-character spelling is of this kind.
pub proof fn lemma_aspirate_spelling(a: PaliAlphabet, b: PaliAlphabet)
    ensures
        aspirate_of(a) == Some(b) <==> b.spelling() == a.spelling().push('h'),
{
    if aspirate_of(a) == Some(b) {
        assert(b.spelling() =~= a.spelling().push('h'));
    }
    if b.spelling() == a.spelling().push('h') {
        lemma_spelling_shape(a);
        lemma_spelling_shape(b);
        assert(a.spelling().push('h')[0] == a.spelling()[0]);
        lemma_aspirate_by_shape(a, b);
    }
}

proof fn lemma_aspirate_by_shape(a: PaliAlphabet, b: PaliAlphabet)
    requires
        a.spelling().len() == 1,
        b.spelling().len() == 2,
        a.spelling()[0] == b.spelling()[0],
    ensures
        aspirate_of(a) == Some(b),
{
}

/// The first glyph of a nonempty text, as found by reading one character
/// and looking at the one after it. A character that spells a letter gives
/// that letter, unless the letter has an aspirated partner and an `h`
/// follows: the two characters then give the partner. A character that
/// begins no letter's spelling stands for itself.
pub proof fn lemma_first_glyph(s: Seq<char>)
    requires
        s.len() > 0,
    ensures
        forall|a: PaliAlphabet|
            #![trigger letter_glyph(a)]
            a.spelling().len() == 1 && a.spelling()[0] == s[0] && !(s.len() >= 2 && s[1] == 'h'
                && aspirate_of(a) is Some) ==> first_glyph(s) == letter_glyph(a)
                && first_glyph_len(s) == 1,
        forall|a: PaliAlphabet|
            #![trigger letter_glyph(a)]
            a.spelling().len() == 2 && a.spelling()[0] == s[0] && s.len() >= 2 && s[1] == 'h'
                ==> first_glyph(s) == letter_glyph(a) && first_glyph_len(s) == 2,
        !is_letter_char(s[0]) ==> first_glyph(s) == other_glyph(s[0]) && first_glyph_len(s) == 1,
{
    assert forall|a: PaliAlphabet|
        #![trigger letter_glyph(a)]
        a.spelling().len() == 2 && a.spelling()[0] == s[0] && s.len() >= 2 && s[1]
            == 'h' implies first_glyph(s) == letter_glyph(a) && first_glyph_len(s) == 2 by {
        lemma_spelling_shape(a);
        assert(a.spelling() =~= s.take(2));
        lemma_letter_spelled(a);
    }
    assert forall|a: PaliAlphabet|
        #![trigger letter_glyph(a)]
        a.spelling().len() == 1 && a.spelling()[0] == s[0] && !(s.len() >= 2 && s[1] == 'h'
            && aspirate_of(a) is Some) implies first_glyph(s) == letter_glyph(a)
        && first_glyph_len(s) == 1 by {
        if s.len() >= 2 && letter_spelled(s.take(2)) is Some {
            let b = choose|b: PaliAlphabet| b.spelling() == s.take(2);
            lemma_spelling_shape(b);
            assert(s.take(2)[0] == s[0] && s.take(2)[1] == s[1]);
            lemma_aspirate_by_shape(a, b);
        }
        assert(a.spelling() =~= s.take(1));
        lemma_letter_spelled(a);
    }
    if !is_letter_char(s[0]) {
        if s.len() >= 2 && letter_spelled(s.take(2)) is Some {
            let b = choose|b: PaliAlphabet| b.spelling() == s.take(2);
            assert(s.take(2)[0] == s[0]);
        }
        if letter_spelled(s.take(1)) is Some {
            let b = choose|b: PaliAlphabet| b.spelling() == s.take(1);
            assert(s.take(1)[0] == s[0]);
        }
    }
}

/// The characters that stand for a glyph in a text.
pub open spec fn glyph_spelling(c: Character) -> Seq<char> {
    match c {
        Character::Pali(a) => a.spelling(),
        Character::Other(x) => seq![x],
    }
}

/// The text that a sequence of glyphs stands for: their spellings, joined.
pub open spec fn spell(g: Seq<Character>) -> Seq<char>
    decreases g.len(),
{
    if g.len() == 0 {
        Seq::empty()
    } else {
        glyph_spelling(g[0]) + spell(g.drop_first())
    }
}

/// How two glyphs compare: letters by their place in the alphabet, other
/// characters by their code points, and every letter before every other
/// character. The result is -1, 0 or 1.
pub open spec fn glyph_order(c1: Character, c2: Character) -> int {
    match (c1, c2) {
        (Character::Other(x), Character::Other(y)) => sign_of(x as int - y as int),
        (Character::Pali(a), Character::Pali(b)) => sign_of(a.ordinal() - b.ordinal()),
        (Character::Other(_), Character::Pali(_)) => 1,
        (Character::Pali(_), Character::Other(_)) => -1,
    }
}

/// `i` is the first position at which both sequences have a glyph and the two
/// glyphs do not tie.
pub open spec fn first_difference(a: Seq<Character>, b: Seq<Character>, i: int) -> bool {
    &&& 0 <= i < a.len()
    &&& i < b.len()
    &&& glyph_order(a[i], b[i]) != 0
    &&& forall|j: int| 0 <= j < i ==> #[trigger] glyph_order(a[j], b[j]) == 0
}

/// How two glyph sequences compare: by the glyphs at their first difference
/// or, where they have none, by their lengths, the shorter first.
pub open spec fn glyphs_order(a: Seq<Character>, b: Seq<Character>) -> int {
    if exists|i: int| first_difference(a, b, i) {
        let i = choose|i: int| first_difference(a, b, i);
        glyph_order(a[i], b[i])
    } else {
        sign_of(a.len() - b.len())
    }
}

/// Dictionary order of two texts: -1 where the first sorts before the second,
/// 1 where it sorts after it, 0 where neither does.
pub open spec fn text_order(s1: Seq<char>, s2: Seq<char>) -> int {
    glyphs_order(glyphs(s1), glyphs(s2))
}

/// The length of a text, counted in glyphs.
pub open spec fn text_length(s: Seq<char>) -> nat {
    glyphs(s).len()
}

/// Two sequences have at most one first difference.
pub proof fn lemma_first_difference_unique(a: Seq<Character>, b: Seq<Character>, i: int, j: int)
    requires
        first_difference(a, b, i),
        first_difference(a, b, j),
    ensures
        i == j,
{
    if i < j {
        assert(glyph_order(a[i], b[i]) == 0);
    }
    if j < i {
        assert(glyph_order(a[j], b[j]) == 0);
    }
}

/// The order of two sequences that differ first at `i`.
pub proof fn lemma_order_at_difference(a: Seq<Character>, b: Seq<Character>, i: int)
    requires
        first_difference(a, b, i),
    ensures
        glyphs_order(a, b) == glyph_order(a[i], b[i]),
{
    let k = choose|k: int| first_difference(a, b, k);
    lemma_first_difference_unique(a, b, i, k);
}

/// The order of two sequences that tie at every position that both have.
pub proof fn lemma_order_without_difference(a: Seq<Character>, b: Seq<Character>)
    requires
        forall|j: int| 0 <= j < a.len() && j < b.len() ==> #[trigger] glyph_order(a[j], b[j]) == 0,
    ensures
        glyphs_order(a, b) == sign_of(a.len() - b.len()),
{
}

/// The glyphs of a nonempty text are its first glyph, then the glyphs of what
/// follows it; a glyph takes one or two characters.
pub proof fn lemma_glyphs_step(s: Seq<char>)
    requires
        s.len() > 0,
    ensures
        1 <= first_glyph_len(s) <= s.len(),
        glyphs(s).len() > 0,
        glyphs(s)[0] == first_glyph(s),
        glyphs(s).skip(1) == glyphs(s.skip(first_glyph_len(s))),
{
    let rest = glyphs(s.skip(first_glyph_len(s)));
    assert(glyphs(s) == seq![first_glyph(s)] + rest);
    assert((seq![first_glyph(s)] + rest).skip(1) =~= rest);
}

/// A text has at most as many glyphs as characters.
pub proof fn lemma_glyphs_len(s: Seq<char>)
    ensures
        glyphs(s).len() <= s.len(),
    decreases s.len(),
{
    if s.len() > 0 {
        lemma_glyphs_step(s);
        lemma_glyphs_len(s.skip(first_glyph_len(s)));
    }
}

/// The characters of a text that are still to be read, with one character of
/// look-ahead.
pub struct CharCursor {
    chars: Vec<char>,
    pos: usize,
}

impl View for CharCursor {
    type V = Seq<char>;

    /// The characters not yet read.
    closed spec fn view(&self) -> Seq<char> {
        self.chars@.skip(self.pos as int)
    }
}

impl CharCursor {
    #[verifier::type_invariant]
    spec fn in_bounds(self) -> bool {
        self.pos <= self.chars.len()
    }

    /// A cursor at the start of the characters that `source` yields.
    pub fn new(source: Chars<'_>) -> (cursor: Self)
        requires
            source.decrease() is Some,
        ensures
            cursor@ == source.remaining(),
            cursor@.len() <= usize::MAX,
    {
        let mut source = source;
        let ghost all = source.remaining();
        let mut chars: Vec<char> = Vec::new();
        loop
            invariant
                source.decrease() is Some,
                chars@ + source.remaining() == all,
            ensures
                chars@ =~= all,
            decreases source.decrease()->0,
        {
            match source.next() {
                Some(c) => {
                    chars.push(c);
                },
                None => {
                    break ;
                },
            }
        }
        let cursor = CharCursor { chars, pos: 0 };
        assert(cursor@ =~= all);
        cursor
    }

    /// Reads the next character, if any is left.
    pub fn next(&mut self) -> (r: Option<char>)
        ensures
            old(self)@.len() == 0 ==> r is None && final(self)@ == old(self)@,
            old(self)@.len() > 0 ==> r == Some(old(self)@[0]) && final(self)@ == old(self)@.skip(1),
    {
        proof {
            use_type_invariant(&*self);
        }
        if self.pos < self.chars.len() {
            let c = self.chars[self.pos];
            self.pos = self.pos + 1;
            assert(self@ =~= old(self)@.skip(1));
            Some(c)
        } else {
            None
        }
    }

    /// Looks at the next character without reading it.
    pub fn peek(&self) -> (r: Option<char>)
        ensures
            self@.len() == 0 ==> r is None,
            self@.len() > 0 ==> r == Some(self@[0]),
    {
        proof {
            use_type_invariant(self);
        }
        if self.pos < self.chars.len() {
            Some(self.chars[self.pos])
        } else {
            None
        }
    }
}

/// Splits a text into glyphs, one at a time, from left to right.
pub struct CharacterTokenizer {
    source: CharCursor,
}

impl View for CharacterTokenizer {
    type V = Seq<char>;

    /// The part of the text that is not tokenized yet.
    closed spec fn view(&self) -> Seq<char> {
        self.source@
    }
}

/// The letter that a consonant begins: its aspirated partner `a2` where an
/// `h` follows, which is then read too, and the consonant `a1` itself
/// otherwise.
fn parse_multichar_letter(chars: &mut CharCursor, a1: PaliAlphabet, a2: PaliAlphabet) -> (r:
    Character)
    ensures
        old(chars)@.len() > 0 && old(chars)@[0] == 'h' ==> {
            &&& r == letter_glyph(a2)
            &&& final(chars)@ == old(chars)@.skip(1)
        },
        !(old(chars)@.len() > 0 && old(chars)@[0] == 'h') ==> {
            &&& r == letter_glyph(a1)
            &&& final(chars)@ == old(chars)@
        },
{
    match chars.peek() {
        Some('h') => {
            chars.next();
            Character::Pali(a2)
        },
        _ => Character::Pali(a1),
    }
}

/// The letter that a character spells by itself.
fn parse_singlechar_letter(a: PaliAlphabet) -> (r: Character)
    ensures
        r == letter_glyph(a),
{
    Character::Pali(a)
}

impl CharacterTokenizer {
    /// A tokenizer at the start of the text whose characters `source` yields.
    pub fn new(source: Chars<'_>) -> (tokenizer: CharacterTokenizer)
        requires
            source.decrease() is Some,
        ensures
            tokenizer@ == source.remaining(),
            tokenizer@.len() <= usize::MAX,
    {
        CharacterTokenizer { source: CharCursor::new(source) }
    }

    /// Takes the next glyph off the text, if any of the text is left.
    pub fn next(&mut self) -> (r: Option<Character>)
        ensures
            old(self)@.len() == 0 ==> r is None && final(self)@ == old(self)@,
            old(self)@.len() > 0 ==> {
                &&& r == Some(first_glyph(old(self)@))
                &&& final(self)@ == old(self)@.skip(first_glyph_len(old(self)@))
            },
    {
        proof {
            let s = self@;
            if s.len() > 0 {
                lemma_first_glyph(s);
                if s.len() >= 2 {
                    assert(s.skip(1).skip(1) =~= s.skip(2));
                    assert(s.skip(1)[0] == s[1]);
                }
            }
        }
        match self.source.next() {
            Some('a') => Some(parse_singlechar_letter(PaliAlphabet::A)),
            Some('ā') => Some(parse_singlechar_letter(PaliAlphabet::AA)),
            Some('i') => Some(parse_singlechar_letter(PaliAlphabet::I)),
            Some('ī') => Some(parse_singlechar_letter(PaliAlphabet::II)),
            Some('u') => Some(parse_singlechar_letter(PaliAlphabet::U)),
            Some('ū') => Some(parse_singlechar_letter(PaliAlphabet::UU)),
            Some('e') => Some(parse_singlechar_letter(PaliAlphabet::E)),
            Some('o') => Some(parse_singlechar_letter(PaliAlphabet::O)),
            Some('k') => Some(
                parse_multichar_letter(&mut self.source, PaliAlphabet::K, PaliAlphabet::KH),
            ),
            Some('g') => Some(
                parse_multichar_letter(&mut self.source, PaliAlphabet::G, PaliAlphabet::GH),
            ),
            Some('ṅ') => Some(parse_singlechar_letter(PaliAlphabet::QuoteN)),
            Some('c') => Some(
                parse_multichar_letter(&mut self.source, PaliAlphabet::C, PaliAlphabet::CH),
            ),
            Some('j') => Some(
                parse_multichar_letter(&mut self.source, PaliAlphabet::J, PaliAlphabet::JH),
            ),
            Some('ñ') => Some(parse_singlechar_letter(PaliAlphabet::TildeN)),
            Some('ṭ') => Some(
                parse_multichar_letter(&mut self.source, PaliAlphabet::DotT, PaliAlphabet::DotTH),
            ),
            Some('ḍ') => Some(
                parse_multichar_letter(&mut self.source, PaliAlphabet::DotD, PaliAlphabet::DotDH),
            ),
            Some('ṇ') => Some(parse_singlechar_letter(PaliAlphabet::DotN)),
            Some('t') => Some(
                parse_multichar_letter(&mut self.source, PaliAlphabet::T, PaliAlphabet::TH),
            ),
            Some('d') => Some(
                parse_multichar_letter(&mut self.source, PaliAlphabet::D, PaliAlphabet::DH),
            ),
            Some('n') => Some(parse_singlechar_letter(PaliAlphabet::N)),
            Some('p') => Some(
                parse_multichar_letter(&mut self.source, PaliAlphabet::P, PaliAlphabet::PH),
            ),
            Some('b') => Some(
                parse_multichar_letter(&mut self.source, PaliAlphabet::B, PaliAlphabet::BH),
            ),
            Some('m') => Some(parse_singlechar_letter(PaliAlphabet::M)),
            Some('y') => Some(parse_singlechar_letter(PaliAlphabet::Y)),
            Some('r') => Some(parse_singlechar_letter(PaliAlphabet::R)),
            Some('l') => Some(parse_singlechar_letter(PaliAlphabet::L)),
            Some('v') => Some(parse_singlechar_letter(PaliAlphabet::V)),
            Some('s') => Some(parse_singlechar_letter(PaliAlphabet::S)),
            Some('h') => Some(parse_singlechar_letter(PaliAlphabet::H)),
            Some('ḷ') => Some(parse_singlechar_letter(PaliAlphabet::DotL)),
            Some('ṃ') => Some(parse_singlechar_letter(PaliAlphabet::DotM)),
            Some(c) => Some(Character::Other(c)),
            None => None,
        }
    }

    /// Takes all the glyphs that are left, in order.
    pub fn collect(self) -> (r: Vec<Character>)
        ensures
            r@ == glyphs(self@),
    {
        let mut tokenizer = self;
        let mut out: Vec<Character> = Vec::new();
        loop
            invariant
                out@ + glyphs(tokenizer@) == glyphs(self@),
            ensures
                out@ == glyphs(self@),
            decreases tokenizer@.len(),
        {
            proof {
                if tokenizer@.len() > 0 {
                    lemma_glyphs_step(tokenizer@);
                }
            }
            let ghost before = glyphs(tokenizer@);
            match tokenizer.next() {
                Some(c) => {
                    out.push(c);
                    assert(seq![c] + before.skip(1) =~= before);
                    assert(out@ + before.skip(1) =~= out@.drop_last() + before);
                },
                None => {
                    assert(out@ + glyphs(tokenizer@) =~= out@);
                    break ;
                },
            }
        }
        out
    }
}

/// Compares two glyphs: -1 where the first sorts before the second, 1 where
/// it sorts after it, 0 where they are the same.
pub fn char_compare(c1: Character, c2: Character) -> (r: isize)
    ensures
        r == glyph_order(c1, c2),
        -1 <= r <= 1,
        r == 0 <==> c1 == c2,
{
    proof {
        crate::alphabet::laws::law_glyph_order_by_rank(c1, c2);
    }
    match (c1, c2) {
        (Character::Other(x), Character::Other(y)) => {
            let cx: u32 = x as u32;
            let cy: u32 = y as u32;
            if cx < cy {
                -1
            } else if cx > cy {
                1
            } else {
                0
            }
        },
        (Character::Pali(a), Character::Pali(b)) => {
            let oa: usize = a.ordinal_of();
            let ob: usize = b.ordinal_of();
            if oa < ob {
                -1
            } else if oa > ob {
                1
            } else {
                0
            }
        },
        (Character::Other(_), Character::Pali(_)) => 1,
        (Character::Pali(_), Character::Other(_)) => -1,
    }
}

/// The glyphs of a text.
pub fn tokenize(s: &str) -> (r: Vec<Character>)
    ensures
        r@ == glyphs(s@),
{
    CharacterTokenizer::new(s.chars()).collect()
}

/// The text that glyphs stand for: their spellings, joined.
pub fn spell_glyphs(g: &Vec<Character>) -> (r: String)
    ensures
        r@ == spell(g@),
{
    let mut out = String::new();
    let mut k: usize = 0;
    assert(spell(g@.take(0)) =~= out@);
    while k < g.len()
        invariant
            0 <= k <= g.len(),
            out@ == spell(g@.take(k as int)),
        decreases g.len() - k,
    {
        match g[k] {
            Character::Pali(a) => {
                out.append(a.spelling_of());
            },
            Character::Other(c) => {
                out.push(c);
                assert(out@ =~= spell(g@.take(k as int)) + seq![c]);
            },
        }
        proof {
            crate::alphabet::laws::lemma_spell_push(g@.take(k as int), g[k as int]);
            assert(g@.take(k + 1) =~= g@.take(k as int).push(g[k as int]));
        }
        k = k + 1;
    }
    assert(g@.take(k as int) =~= g@);
    out
}

/// The number of glyphs in a text.
pub fn string_length(str1: &str) -> (r: usize)
    ensures
        r == text_length(str1@),
        r <= str1@.len(),
{
    proof {
        lemma_glyphs_len(str1@);
    }
    let mut chars1 = CharacterTokenizer::new(str1.chars());
    let mut count: usize = 0;
    loop
        invariant
            count + glyphs(chars1@).len() == glyphs(str1@).len(),
            count + chars1@.len() <= usize::MAX,
        ensures
            count == glyphs(str1@).len(),
        decreases chars1@.len(),
    {
        proof {
            if chars1@.len() > 0 {
                lemma_glyphs_step(chars1@);
            }
        }
        match chars1.next() {
            Some(_) => {
                count = count + 1;
            },
            None => {
                break ;
            },
        }
    }
    count
}

/// Compares two texts in dictionary order: -1 where the first sorts before
/// the second, 1 where it sorts after it, 0 where they are the same text.
pub fn string_compare(str1: &str, str2: &str) -> (r: isize)
    ensures
        r == text_order(str1@, str2@),
        -1 <= r <= 1,
        r == 0 <==> str1@ == str2@,
{
    proof {
        crate::alphabet::laws::law_text_order_antisymmetric(str1@, str2@);
    }
    let mut chars1 = CharacterTokenizer::new(str1.chars());
    let mut chars2 = CharacterTokenizer::new(str2.chars());
    let ghost g1 = glyphs(str1@);
    let ghost g2 = glyphs(str2@);
    let ghost mut k: int = 0;
    loop
        invariant_except_break
            glyphs(chars1@) == g1.skip(k),
            glyphs(chars2@) == g2.skip(k),
        invariant
            g1 == glyphs(str1@),
            g2 == glyphs(str2@),
            0 <= k <= g1.len(),
            k <= g2.len(),
            forall|j: int| 0 <= j < k ==> #[trigger] glyph_order(g1[j], g2[j]) == 0,
        ensures
            k == g1.len() || k == g2.len(),
            forall|j: int| 0 <= j < k ==> #[trigger] glyph_order(g1[j], g2[j]) == 0,
        decreases chars1@.len(),
    {
        proof {
            if chars1@.len() > 0 {
                lemma_glyphs_step(chars1@);
            }
            if chars2@.len() > 0 {
                lemma_glyphs_step(chars2@);
            }
        }
        let c1 = match chars1.next() {
            Some(c) => c,
            None => {
                break ;
            },
        };
        let c2 = match chars2.next() {
            Some(c) => c,
            None => {
                break ;
            },
        };
        let sn = char_compare(c1, c2);
        proof {
            assert(c1 == g1.skip(k)[0]);
            assert(c2 == g2.skip(k)[0]);
            assert(g1.skip(k).skip(1) =~= g1.skip(k + 1));
            assert(g2.skip(k).skip(1) =~= g2.skip(k + 1));
        }
        if sn != 0 {
            proof {
                lemma_order_at_difference(g1, g2, k);
            }
            return sn;
        }
        proof {
            k = k + 1;
        }
    }
    proof {
        lemma_order_without_difference(g1, g2);
    }
    let str1len = string_length(str1);
    let str2len = string_length(str2);
    if str1len < str2len {
        -1
    } else if str1len > str2len {
        1
    } else {
        0
    }
}

} // verus!
