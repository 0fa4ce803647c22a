use pls_core::alphabet::{
    char_compare, CharCursor, spell_glyphs, string_compare, string_length, tokenize, Character,
    CharacterTokenizer,
    NotALetter, PaliAlphabet, PALI_ALPHABET_ROMAN,
};

const PALI_ALPHABET_ROMAN_COMPOUND_LETTERS_INDICES: &[usize] =
    &[8, 10, 13, 15, 18, 20, 23, 25, 28, 30];

const PALI_ALPHABET_ROMAN_COMPOUNDING_LETTER_INDEX: usize = 38;

fn is_compound_letter_roman(index: usize) -> bool {
    None != PALI_ALPHABET_ROMAN_COMPOUND_LETTERS_INDICES
        .iter()
        .find(|&&e| e == index)
}

fn fixup_compound_letters(indices: &[usize]) -> Vec<usize> {
    let ret = indices
        .iter()
        .fold((None, Vec::new()), |(ep, mut acc), &e| {
            match ep {
                Some(ep) => {
                    if e == PALI_ALPHABET_ROMAN_COMPOUNDING_LETTER_INDEX
                        && is_compound_letter_roman(ep)
                    {
                        let i_prev = acc.len() - 1;
                        acc[i_prev] += 1;
                    } else {
                        acc.push(e);
                    }
                }
                None => acc.push(e),
            }
            (Some(e), acc)
        });

    ret.1
}

fn letter(index: usize) -> PaliAlphabet {
    PaliAlphabet::try_from(index).expect("an index below 41")
}

fn sign(d: isize) -> isize {
    d.signum()
}

#[test]
fn alphabet_test_pali_alphabet_length() {
    assert_eq!(PALI_ALPHABET_ROMAN.len(), 41);

    let i: usize = PaliAlphabet::DotM.into();
    assert_eq!(i, 40);
}

#[test]
fn lib_test_pali_alphabet_length() {
    assert_eq!(PALI_ALPHABET_ROMAN.len(), 41);

    let i: usize = PaliAlphabet::DotM.into();
    assert_eq!(i, 40);
}

#[test]
fn alphabet_parse_with_non_pali_character() {
    let str = "xā1b";
    let tokenizer = CharacterTokenizer::new(str.chars());

    let chars: Vec<_> = tokenizer.collect();

    assert_eq!(
        chars,
        vec![
            Character::Other('x'),
            Character::Pali(PaliAlphabet::AA),
            Character::Other('1'),
            Character::Pali(PaliAlphabet::B)
        ]
    )
}

#[test]
fn lib_parse_with_non_pali_character() {
    let str = "xā1b";
    let tokenizer = CharacterTokenizer::new(str.chars());

    let chars: Vec<_> = tokenizer.collect();

    assert_eq!(
        chars,
        vec![
            Character::Other('x'),
            Character::Pali(PaliAlphabet::AA),
            Character::Other('1'),
            Character::Pali(PaliAlphabet::B)
        ]
    )
}

#[test]
fn alphabet_fixup_compound_letters_with_no_compound_letters() {
    let indices: Vec<usize> = vec![0, 1, 2];
    let fixedup_indices = fixup_compound_letters(&indices);

    assert_eq!(fixedup_indices, indices)
}

#[test]
fn lib_fixup_compound_letters_with_no_compound_letters() {
    let indices: Vec<usize> = vec![0, 1, 2];
    let fixedup_indices = fixup_compound_letters(&indices);

    assert_eq!(fixedup_indices, indices)
}

#[test]
fn fixup_compound_letters_with_compound_letters() {
    for index in 0..PALI_ALPHABET_ROMAN_COMPOUND_LETTERS_INDICES.len() {
        let base = PALI_ALPHABET_ROMAN_COMPOUND_LETTERS_INDICES[index];
        let indices: Vec<usize> = vec![0, base, 38, 38, 2, 38];
        let fixed_indices = fixup_compound_letters(&indices);

        let new_indices = vec![0, base + 1, 38, 2, 38];

        assert_eq!(new_indices, fixed_indices)
    }
}

#[test]
fn string_compare_tests() {
    let cases: Vec<(&str, &str, isize)> = vec![
        ("c", "cc", -1),
        ("c", "b", -1),
        ("c", "c", 0),
        ("b", "c", 1),
        ("cc", "c", 1),
        ("ac", "ab", -1),
        ("ac", "ac", 0),
        ("ab", "ac", 1),
        ("a", "x", -1),
        ("x", "a", 1),
        ("x", "z", -1),
        ("x", "x", 0),
        ("z", "x", 1),
        ("xabc", "aabc", 1),
        ("aabc", "xabc", -1),
        ("xabc", "yabc", 1),
        ("xabc", "xabc", 0),
        ("yabc", "xabc", -1),
        ("i", "ā", 1),
        ("cc", "b", -1),
    ];
    for (str1, str2, expected) in cases {
        assert_eq!(string_compare(str1, str2), expected, "{} against {}", str1, str2);
    }
}

#[test]
fn string_length_tests() {
    assert_eq!(string_length("buddho"), 5usize);
    assert_eq!(string_length("bhagavā"), 6usize);
    assert_eq!(
        string_length("aāiīuūeokkhgghṅcchjjhñṭṭhḍḍhṇtthddhnpphbbhmyrlvshḷṃ"),
        41
    );
}

#[test]
fn string_length_of_all_spellings_joined() {
    let mut all = String::new();
    for index in 0..PALI_ALPHABET_ROMAN.len() {
        all.push_str(letter(index).spelling_of());
    }
    assert_eq!(all, PALI_ALPHABET_ROMAN.concat());
    assert_eq!(string_length(&all), 41);
}

#[test]
fn string_length_of_empty_and_foreign_text() {
    assert_eq!(string_length(""), 0);
    assert_eq!(string_length("123 !"), 5);
    assert_eq!(string_length("h"), 1);
    assert_eq!(string_length("hh"), 2);
    assert_eq!(string_length("kh"), 1);
    assert_eq!(string_length("khh"), 2);
    assert_eq!(string_length("k"), 1);
}

#[test]
fn string_compare_all() {
    for i1 in 0..PALI_ALPHABET_ROMAN.len() {
        for i2 in 0..PALI_ALPHABET_ROMAN.len() {
            let compared = string_compare(PALI_ALPHABET_ROMAN[i1], PALI_ALPHABET_ROMAN[i2]);

            let pali_char1 = letter(i1);
            let pali_char2 = letter(i2);
            let expected = sign(pali_char1.ordinal_of() as isize - pali_char2.ordinal_of() as isize);

            assert_eq!(expected, compared);
        }
    }
}

#[test]
fn round_trip_pali_to_roman() {
    for index in 0..PALI_ALPHABET_ROMAN.len() {
        let pali_char = letter(index);
        let i: usize = pali_char.into();
        assert_eq!(i, index);
        let str = PALI_ALPHABET_ROMAN[i];
        assert_eq!(str, pali_char.spelling_of());

        let mut tokenizer = CharacterTokenizer::new(str.chars());
        let new_pali_char = match tokenizer.next() {
            Some(Character::Pali(c)) => c,
            _ => panic!("no letter came out of {}", str),
        };

        assert_eq!(new_pali_char, pali_char);
        assert_eq!(tokenizer.next(), None);
    }
}

#[test]
fn round_trip_parsing_for_long_strings() {
    // a fixed pseudo-random walk over the alphabet, a hundred letters long
    let mut state: usize = 12345;
    let mut indices: Vec<usize> = Vec::new();
    for _ in 0..100 {
        state = (state * 1103515245 + 12345) % 2147483648;
        indices.push((state / 65536) % 41);
    }
    for len in [0usize, 1, 2, 17, 99, 100] {
        let indices = fixup_compound_letters(&indices[..len]);

        let pali_string = indices
            .iter()
            .map(|&i| PALI_ALPHABET_ROMAN[i])
            .fold(String::new(), |acc, e| acc + e);

        let new_indices: Vec<usize> = tokenize(&pali_string)
            .into_iter()
            .map(|c| match c {
                Character::Pali(c) => c.into(),
                _ => panic!("a character that is no letter came out"),
            })
            .collect();

        assert_eq!(new_indices, indices);
    }
}

#[test]
fn letters_sort_before_other_characters() {
    for index in 0..PALI_ALPHABET_ROMAN.len() {
        for other in ["x", "1", " ", "z", "A", "é", "字"] {
            assert_eq!(string_compare(PALI_ALPHABET_ROMAN[index], other), -1);
            assert_eq!(string_compare(other, PALI_ALPHABET_ROMAN[index]), 1);
        }
    }
}

#[test]
fn char_compare_by_kind() {
    let a = Character::Pali(PaliAlphabet::A);
    let m = Character::Pali(PaliAlphabet::DotM);
    let x = Character::Other('x');
    let z = Character::Other('z');
    assert_eq!(char_compare(a, m), -1);
    assert_eq!(char_compare(m, a), 1);
    assert_eq!(char_compare(m, m), 0);
    assert_eq!(char_compare(x, z), -1);
    assert_eq!(char_compare(z, x), 1);
    assert_eq!(char_compare(x, x), 0);
    assert_eq!(char_compare(m, x), -1);
    assert_eq!(char_compare(x, a), 1);
}

#[test]
fn tokenize_takes_aspirates_as_one_glyph() {
    assert_eq!(
        tokenize("buddho"),
        vec![
            Character::Pali(PaliAlphabet::B),
            Character::Pali(PaliAlphabet::U),
            Character::Pali(PaliAlphabet::D),
            Character::Pali(PaliAlphabet::DH),
            Character::Pali(PaliAlphabet::O),
        ]
    );
    assert_eq!(tokenize(""), vec![]);
    assert_eq!(tokenize("k"), vec![Character::Pali(PaliAlphabet::K)]);
    assert_eq!(
        tokenize("ah"),
        vec![Character::Pali(PaliAlphabet::A), Character::Pali(PaliAlphabet::H)]
    );
    assert_eq!(
        tokenize("ṭhḍ h"),
        vec![
            Character::Pali(PaliAlphabet::DotTH),
            Character::Pali(PaliAlphabet::DotD),
            Character::Other(' '),
            Character::Pali(PaliAlphabet::H),
        ]
    );
}

#[test]
fn tokenizing_twice_gives_the_same_glyphs() {
    let text = "saṅkhāra 12 dhammā";
    assert_eq!(tokenize(text), tokenize(text));
    assert_eq!(tokenize(text).len(), string_length(text));
}

#[test]
fn glyph_count_breaks_ties_not_character_count() {
    // "kh" is one glyph and "kk" is two, though both have two characters
    assert_eq!(string_compare("kh", "kk"), 1);
    assert_eq!(string_compare("k", "kh"), -1);
    assert_eq!(string_compare("akh", "akha"), -1);
    assert_eq!(string_compare("", "a"), -1);
    assert_eq!(string_compare("a", ""), 1);
    assert_eq!(string_compare("", ""), 0);
}

#[test]
fn ordinals_and_letters_convert_both_ways() {
    assert_eq!(PaliAlphabet::from_ordinal(0), Some(PaliAlphabet::A));
    assert_eq!(PaliAlphabet::from_ordinal(9), Some(PaliAlphabet::KH));
    assert_eq!(PaliAlphabet::from_ordinal(40), Some(PaliAlphabet::DotM));
    assert_eq!(PaliAlphabet::from_ordinal(41), None);
    assert_eq!(PaliAlphabet::try_from(41), Err(NotALetter { number: 41 }));
    assert_eq!(PaliAlphabet::try_from(38), Ok(PaliAlphabet::H));
    assert_eq!(PaliAlphabet::QuoteN.ordinal_of(), 12);
    assert!(PaliAlphabet::AA < PaliAlphabet::BH);
}

#[test]
fn spelling_the_glyphs_of_a_text_gives_the_text() {
    for text in ["", "buddho", "saṅkhāra 12 dhammā", "xā1b", "khh", "hk", "ṭhḍ h", "字kh"] {
        assert_eq!(spell_glyphs(&tokenize(text)), text);
    }
    assert_eq!(
        spell_glyphs(&vec![
            Character::Pali(PaliAlphabet::BH),
            Character::Other('-'),
            Character::Pali(PaliAlphabet::AA),
        ]),
        "bh-ā"
    );
}

#[test]
fn a_stray_h_after_a_consonant_joins_it() {
    // the letters k and h, spelled out, read back as the one letter kh
    let glyphs = vec![
        Character::Pali(PaliAlphabet::K),
        Character::Pali(PaliAlphabet::H),
    ];
    assert_eq!(
        tokenize(&spell_glyphs(&glyphs)),
        vec![Character::Pali(PaliAlphabet::KH)]
    );
}

#[test]
fn cursor_reads_and_peeks_one_character_at_a_time() {
    let mut cursor = CharCursor::new("kā".chars());
    assert_eq!(cursor.peek(), Some('k'));
    assert_eq!(cursor.peek(), Some('k'));
    assert_eq!(cursor.next(), Some('k'));
    assert_eq!(cursor.peek(), Some('ā'));
    assert_eq!(cursor.next(), Some('ā'));
    assert_eq!(cursor.peek(), None);
    assert_eq!(cursor.next(), None);
    assert_eq!(cursor.next(), None);
}

#[test]
fn tokenizer_gives_one_glyph_at_a_time() {
    let mut tokenizer = CharacterTokenizer::new("dhk1".chars());
    assert_eq!(tokenizer.next(), Some(Character::Pali(PaliAlphabet::DH)));
    assert_eq!(tokenizer.next(), Some(Character::Pali(PaliAlphabet::K)));
    assert_eq!(tokenizer.next(), Some(Character::Other('1')));
    assert_eq!(tokenizer.next(), None);
    assert_eq!(tokenizer.next(), None);
    let mut at_the_end = CharacterTokenizer::new("ak".chars());
    assert_eq!(at_the_end.next(), Some(Character::Pali(PaliAlphabet::A)));
    assert_eq!(at_the_end.collect(), vec![Character::Pali(PaliAlphabet::K)]);
}
