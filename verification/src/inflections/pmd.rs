use crate::inflections::host::{exec_sql_query, PlsInflectionsHost};
use crate::text::str_eq;
use std::str::FromStr;
use vstd::prelude::*;

verus! {

/// The table of forms that a word is inflected by.
#[derive(Debug, Clone, Copy, PartialEq, Eq, Structural)]
pub enum InflectionClass {
    Conjugation,
    Declension,
    DeclensionPron1st,
    DeclensionPron2nd,
    DeclensionPronDual,
}

/// How a head word takes its forms.
#[derive(Debug, Clone, PartialEq, Eq)]
pub enum WordType {
    InflectedForm { stems: String },
    Indeclinable { stem: String },
    Irregular { pattern: String, inflection_class: InflectionClass },
    Declinable { stem: String, pattern: String, inflection_class: InflectionClass },
}

/// What the dictionary knows of a head word.
#[derive(Debug, Clone, PartialEq, Eq)]
pub struct Pali1Metadata {
    pub pali1: String,
    pub word_type: WordType,
    pub pos: String,
    pub meaning: String,
    pub like: String,
    pub long_name: String,
}

/// A word type, with its texts as sequences of characters.
pub enum WordTypeView {
    InflectedForm { stems: Seq<char> },
    Indeclinable { stem: Seq<char> },
    Irregular { pattern: Seq<char>, inflection_class: InflectionClass },
    Declinable { stem: Seq<char>, pattern: Seq<char>, inflection_class: InflectionClass },
}

/// A head word's metadata, with its texts as sequences of characters.
pub struct Pali1MetadataView {
    pub pali1: Seq<char>,
    pub word_type: WordTypeView,
    pub pos: Seq<char>,
    pub meaning: Seq<char>,
    pub like: Seq<char>,
    pub long_name: Seq<char>,
}

impl View for WordType {
    type V = WordTypeView;

    open spec fn view(&self) -> WordTypeView {
        match *self {
            WordType::InflectedForm { stems } => WordTypeView::InflectedForm { stems: stems@ },
            WordType::Indeclinable { stem } => WordTypeView::Indeclinable { stem: stem@ },
            WordType::Irregular { pattern, inflection_class } => WordTypeView::Irregular {
                pattern: pattern@,
                inflection_class,
            },
            WordType::Declinable { stem, pattern, inflection_class } => WordTypeView::Declinable {
                stem: stem@,
                pattern: pattern@,
                inflection_class,
            },
        }
    }
}

impl View for Pali1Metadata {
    type V = Pali1MetadataView;

    open spec fn view(&self) -> Pali1MetadataView {
        Pali1MetadataView {
            pali1: self.pali1@,
            word_type: self.word_type@,
            pos: self.pos@,
            meaning: self.meaning@,
            like: self.like@,
            long_name: self.long_name@,
        }
    }
}

/// The inflection class that a name of the index table stands for.
pub open spec fn inflection_class_named(s: Seq<char>) -> Option<InflectionClass> {
    if s == "verb"@ {
        Some(InflectionClass::Conjugation)
    } else if s == ""@ {
        Some(InflectionClass::Declension)
    } else if s == "pron1st"@ {
        Some(InflectionClass::DeclensionPron1st)
    } else if s == "pron2nd"@ {
        Some(InflectionClass::DeclensionPron2nd)
    } else if s == "prondual"@ {
        Some(InflectionClass::DeclensionPronDual)
    } else {
        None
    }
}

/// The message for a name that stands for no inflection class.
pub open spec fn unknown_class_message(s: Seq<char>) -> Seq<char> {
    "Unknown inflection_class '"@ + s + "'."@
}

impl InflectionClass {
    /// The inflection class that a name of the index table stands for; the
    /// names are `verb`, the empty name, `pron1st`, `pron2nd` and `prondual`.
    pub fn from_str(s: &str) -> (r: Result<InflectionClass, String>)
        ensures
            match r {
                Ok(class) => inflection_class_named(s@) == Some(class),
                Err(e) => inflection_class_named(s@) is None && e@ == unknown_class_message(s@),
            },
    {
        if str_eq(s, "verb") {
            Ok(InflectionClass::Conjugation)
        } else if str_eq(s, "") {
            Ok(InflectionClass::Declension)
        } else if str_eq(s, "pron1st") {
            Ok(InflectionClass::DeclensionPron1st)
        } else if str_eq(s, "pron2nd") {
            Ok(InflectionClass::DeclensionPron2nd)
        } else if str_eq(s, "prondual") {
            Ok(InflectionClass::DeclensionPronDual)
        } else {
            let mut message = "Unknown inflection_class '".to_owned();
            message.append(s);
            message.append("'.");
            Err(message)
        }
    }
}

impl FromStr for InflectionClass {
    type Err = String;

    /// The inflection class that a name of the index table stands for.
    fn from_str(s: &str) -> (r: Result<Self, Self::Err>)
        ensures
            match r {
                Ok(class) => inflection_class_named(s@) == Some(class),
                Err(e) => inflection_class_named(s@) is None && e@ == unknown_class_message(s@),
            },
    {
        InflectionClass::from_str(s)
    }
}

/// Where mistakes in the tables of an inflection class are reported.
pub open spec fn feedback_url(inflection_class: InflectionClass) -> Seq<char> {
    match inflection_class {
        InflectionClass::Conjugation =>
            "https://docs.google.com/forms/d/e/1FAIpQLSeJpx7TsISkYEXzxvbBtOH25T-ZO1Z5NFdujO5SD9qcAH_i1A/viewform"@,
        _ =>
            "https://docs.google.com/forms/d/e/1FAIpQLSeoxZiqvIWadaLeuXF4f44NCqEn49-B8KNbSvNer5jxgRYdtQ/viewform"@,
    }
}

/// The address of the form on which mistakes in the tables of an inflection
/// class are reported: one form for verbs, one for all the rest.
pub fn get_feedback_url_for_inflection_class(inflection_class: &InflectionClass) -> (r:
    &'static str)
    ensures
        r@ == feedback_url(*inflection_class),
{
    match inflection_class {
        InflectionClass::Conjugation =>
            "https://docs.google.com/forms/d/e/1FAIpQLSeJpx7TsISkYEXzxvbBtOH25T-ZO1Z5NFdujO5SD9qcAH_i1A/viewform",
        _ =>
            "https://docs.google.com/forms/d/e/1FAIpQLSeoxZiqvIWadaLeuXF4f44NCqEn49-B8KNbSvNer5jxgRYdtQ/viewform",
    }
}

/// A text in which the leftmost match of a regular expression, if there is
/// one, is replaced.
pub uninterp spec fn first_match_replaced(
    pattern: Seq<char>,
    haystack: Seq<char>,
    replacement: Seq<char>,
) -> Seq<char>;

/// `Regex::new` of the regex crate, then `Regex::replace` on what it built:
/// the haystack with its leftmost match replaced, or the crate's message
/// where it does not take the pattern.
#[verifier::external_body]
fn replace_first_match(pattern: &str, haystack: &str, replacement: &str) -> (r: Result<
    String,
    String,
>)
    ensures
        r is Ok ==> r->Ok_0@ == first_match_replaced(pattern@, haystack@, replacement@),
{
    match regex::Regex::new(pattern) {
        Ok(re) => Ok(re.replace(haystack, replacement).into_owned()),
        Err(e) => Err(e.to_string()),
    }
}

/// A head word without the number that tells it from its homonyms: a blank
/// and digits at the end of the word.
pub open spec fn indeclinable_stem(pali1: Seq<char>) -> Seq<char> {
    first_match_replaced(" \\d+$"@, pali1, ""@)
}

/// The stem of an indeclinable: the head word without its homonym number.
pub fn get_stem_for_indeclinable(pali1: &str) -> (r: Result<String, String>)
    ensures
        r is Ok ==> r->Ok_0@ == indeclinable_stem(pali1@),
{
    replace_first_match(" \\d+$", pali1, "")
}

/// The tables of a reply, or the message that came in their place.
pub type Tables = Result<Seq<Seq<Seq<Seq<char>>>>, Seq<char>>;

/// The query for a head word's row in the table of stems.
pub open spec fn stems_query(pali1: Seq<char>) -> Seq<char> {
    "select stem, pattern, pos, definition from '_stems' where pāli1 = \""@ + pali1 + "\""@
}

/// The query for a pattern's row in the index of patterns.
pub open spec fn index_query(pattern: Seq<char>) -> Seq<char> {
    "select inflection_class, like from '_index' where name = \""@ + pattern + "\""@
}

/// The message for a head word that the table of stems does not hold once.
pub open spec fn not_found_message(pali1: Seq<char>) -> Seq<char> {
    "Word '"@ + pali1 + "' not found in db."@
}

/// The message for a pattern that the index of patterns does not hold.
pub open spec fn pattern_not_found_message(pattern: Seq<char>) -> Seq<char> {
    "Pattern '"@ + pattern + "' not found in db."@
}

/// The one row of four cells that a reply on a head word holds, if it is
/// such a reply.
pub open spec fn stems_row(tables: Seq<Seq<Seq<Seq<char>>>>) -> Option<Seq<Seq<char>>> {
    if tables.len() == 1 && tables[0].len() == 1 && tables[0][0].len() == 4 {
        Some(tables[0][0])
    } else {
        None
    }
}

/// The first row of a reply on a pattern, if it has one with two cells.
pub open spec fn index_row(tables: Seq<Seq<Seq<Seq<char>>>>) -> Option<Seq<Seq<char>>> {
    if tables.len() >= 1 && tables[0].len() >= 1 && tables[0][0].len() >= 2 {
        Some(tables[0][0])
    } else {
        None
    }
}

/// What a reply on a pattern says of it: its inflection class and the word
/// that it goes like.
pub open spec fn index_info(pattern: Seq<char>, reply: Tables) -> Result<
    (InflectionClass, Seq<char>),
    Seq<char>,
> {
    match reply {
        Err(e) => Err(e),
        Ok(tables) => match index_row(tables) {
            None => Err(pattern_not_found_message(pattern)),
            Some(row) => match inflection_class_named(row[0]) {
                None => Err(unknown_class_message(row[0])),
                Some(class) => Ok((class, row[1])),
            },
        },
    }
}

/// What came back while a head word was looked up: the reply on its row in
/// the table of stems, the word without its homonym number, the reply on its
/// pattern's row in the index, and the transliteration of the word that it
/// goes like. What was not asked for counts for nothing.
pub struct MetadataReplies {
    pub stems: Tables,
    pub stripped: Result<Seq<char>, Seq<char>>,
    pub index: Tables,
    pub like: Result<Seq<char>, Seq<char>>,
}

/// The word without its homonym number, where it was had, is the one that
/// belongs to the head word.
pub open spec fn replies_fit(pali1: Seq<char>, replies: MetadataReplies) -> bool {
    replies.stripped is Ok ==> replies.stripped->Ok_0 == indeclinable_stem(pali1)
}

/// What is known of a head word, given what the database and the
/// transliterator replied: an inflected form where its stem is `!`, an
/// indeclinable where it is `-`, irregular where it is `*`, and declinable
/// with any other stem.
pub open spec fn metadata_from_replies(pali1: Seq<char>, replies: MetadataReplies) -> Result<
    Pali1MetadataView,
    Seq<char>,
> {
    let stems_reply = replies.stems;
    let stripped = replies.stripped;
    let index_reply = replies.index;
    let like_reply = replies.like;
    match stems_reply {
        Err(e) => Err(e),
        Ok(tables) => match stems_row(tables) {
            None => Err(not_found_message(pali1)),
            Some(row) => {
                let stem = row[0];
                let pattern = row[1];
                let pos = row[2];
                let meaning = row[3];
                if stem.len() == 0 {
                    Err("Stem cannot be empty"@)
                } else if stem == "!"@ {
                    Ok(
                        Pali1MetadataView {
                            pali1,
                            word_type: WordTypeView::InflectedForm { stems: pattern },
                            pos,
                            meaning,
                            like: "infl"@,
                            long_name: "inflected form"@,
                        },
                    )
                } else if stem == "-"@ {
                    match stripped {
                        Err(e) => Err(e),
                        Ok(bare) => Ok(
                            Pali1MetadataView {
                                pali1,
                                word_type: WordTypeView::Indeclinable { stem: bare },
                                pos,
                                meaning,
                                like: "ind"@,
                                long_name: "indeclinable"@,
                            },
                        ),
                    }
                } else {
                    match index_info(pattern, index_reply) {
                        Err(e) => Err(e),
                        Ok((inflection_class, like)) => if stem == "*"@ {
                            Ok(
                                Pali1MetadataView {
                                    pali1,
                                    word_type: WordTypeView::Irregular { pattern, inflection_class },
                                    pos,
                                    meaning,
                                    like: "irreg"@,
                                    long_name: "irregular"@,
                                },
                            )
                        } else {
                            match like_reply {
                                Err(e) => Err(e),
                                Ok(shown) => Ok(
                                    Pali1MetadataView {
                                        pali1,
                                        word_type: WordTypeView::Declinable {
                                            stem,
                                            pattern,
                                            inflection_class,
                                        },
                                        pos,
                                        meaning,
                                        like: "like "@ + shown,
                                        long_name: "declinable"@,
                                    },
                                ),
                            }
                        },
                    }
                }
            },
        },
    }
}

/// A reply as a value of the specification.
pub open spec fn tables_view(reply: Result<Vec<Vec<Vec<String>>>, String>) -> Tables {
    match reply {
        Ok(tables) => Ok(tables.deep_view()),
        Err(e) => Err(e@),
    }
}

/// A text or a message as a value of the specification.
pub open spec fn text_view(reply: Result<String, String>) -> Result<Seq<char>, Seq<char>> {
    match reply {
        Ok(text) => Ok(text@),
        Err(e) => Err(e@),
    }
}

/// Metadata or a message as a value of the specification.
pub open spec fn metadata_view(r: Result<Pali1Metadata, String>) -> Result<
    Pali1MetadataView,
    Seq<char>,
> {
    match r {
        Ok(pm) => Ok(pm@),
        Err(e) => Err(e@),
    }
}

/// A class and a word, or a message, as a value of the specification.
pub open spec fn index_info_view(r: Result<(InflectionClass, String), String>) -> Result<
    (InflectionClass, Seq<char>),
    Seq<char>,
> {
    match r {
        Ok((class, like)) => Ok((class, like@)),
        Err(e) => Err(e@),
    }
}

/// Reads a reply on a pattern: its inflection class and the word that it
/// goes like.
pub fn read_index_info(pattern: &str, reply: Result<Vec<Vec<Vec<String>>>, String>) -> (r: Result<
    (InflectionClass, String),
    String,
>)
    ensures
        index_info_view(r) == index_info(pattern@, tables_view(reply)),
{
    let results = match reply {
        Ok(results) => results,
        Err(e) => {
            return Err(e);
        },
    };
    if results.len() < 1 || results[0].len() < 1 || results[0][0].len() < 2 {
        let mut message = "Pattern '".to_owned();
        message.append(pattern);
        message.append("' not found in db.");
        return Err(message);
    }
    assert(results.deep_view()[0][0] == results[0][0].deep_view());
    assert(results[0][0].deep_view()[0] == results[0][0][0]@);
    assert(results[0][0].deep_view()[1] == results[0][0][1]@);
    match InflectionClass::from_str(results[0][0][0].as_str()) {
        Ok(class) => Ok((class, results[0][0][1].clone())),
        Err(e) => Err(e),
    }
}

/// Writes the query for a head word's row in the table of stems.
pub fn write_stems_query(pali1: &str) -> (r: String)
    ensures
        r@ == stems_query(pali1@),
{
    let mut sql =
        "select stem, pattern, pos, definition from '_stems' where pāli1 = \"".to_owned();
    sql.append(pali1);
    sql.append("\"");
    sql
}

/// Writes the query for a pattern's row in the index of patterns.
pub fn write_index_query(pattern: &str) -> (r: String)
    ensures
        r@ == index_query(pattern@),
{
    let mut sql = "select inflection_class, like from '_index' where name = \"".to_owned();
    sql.append(pattern);
    sql.append("\"");
    sql
}

fn get_index_info<H: PlsInflectionsHost>(pattern: &str, host: &H) -> (r: Result<
    (InflectionClass, String),
    String,
>)
    ensures
        exists|reply: Tables| index_info_view(r) == #[trigger] index_info(pattern@, reply),
{
    let sql = write_index_query(pattern);
    let reply = exec_sql_query(host, sql.as_str());
    let r = read_index_info(pattern, reply);
    assert(index_info_view(r) == index_info(pattern@, tables_view(reply)));
    r
}

/// Looks a head word up in the database of the host and says how it takes
/// its forms. The host is asked for the word's row in the table of stems
/// and, for a word that is inflected by a pattern, for the pattern's row in
/// the index; the word that a declinable goes like is shown transliterated.
pub fn get_pali1_metadata<H: PlsInflectionsHost>(pali1: &str, host: &H) -> (r: Result<
    Pali1Metadata,
    String,
>)
    ensures
        exists|replies: MetadataReplies|
            replies_fit(pali1@, replies) && metadata_view(r) == #[trigger] metadata_from_replies(
                pali1@,
                replies,
            ),
{
    let sql = write_stems_query(pali1);
    let reply = exec_sql_query(host, sql.as_str());
    // what was not asked for stands as a message without words
    let ghost mut replies = MetadataReplies {
        stems: tables_view(reply),
        stripped: Err(Seq::empty()),
        index: Err(Seq::empty()),
        like: Err(Seq::empty()),
    };
    let results = match reply {
        Ok(results) => results,
        Err(e) => {
            let r = Err(e);
            assert(metadata_view(r) == metadata_from_replies(pali1@, replies));
            return r;
        },
    };
    if results.len() != 1 || results[0].len() != 1 || results[0][0].len() != 4 {
        let mut message = "Word '".to_owned();
        message.append(pali1);
        message.append("' not found in db.");
        let r = Err(message);
        assert(metadata_view(r) == metadata_from_replies(pali1@, replies));
        return r;
    }
    assert(results.deep_view()[0][0] == results[0][0].deep_view());
    assert(results[0][0].deep_view()[0] == results[0][0][0]@);
    assert(results[0][0].deep_view()[1] == results[0][0][1]@);
    assert(results[0][0].deep_view()[2] == results[0][0][2]@);
    assert(results[0][0].deep_view()[3] == results[0][0][3]@);
    let stem = results[0][0][0].clone();
    let pattern = results[0][0][1].clone();
    let pos = results[0][0][2].clone();
    let meaning = results[0][0][3].clone();

    if stem.as_str().is_empty() {
        let r = Err("Stem cannot be empty".to_owned());
        assert(metadata_view(r) == metadata_from_replies(pali1@, replies));
        return r;
    }
    if str_eq(stem.as_str(), "!") {
        let r = Ok(
            Pali1Metadata {
                pali1: pali1.to_owned(),
                word_type: WordType::InflectedForm { stems: pattern },
                pos,
                meaning,
                like: "infl".to_owned(),
                long_name: "inflected form".to_owned(),
            },
        );
        assert(metadata_view(r) == metadata_from_replies(pali1@, replies));
        return r;
    }
    if str_eq(stem.as_str(), "-") {
        let bare = get_stem_for_indeclinable(pali1);
        proof {
            replies = MetadataReplies { stripped: text_view(bare), ..replies };
        }
        let r = match bare {
            Ok(bare) => Ok(
                Pali1Metadata {
                    pali1: pali1.to_owned(),
                    word_type: WordType::Indeclinable { stem: bare },
                    pos,
                    meaning,
                    like: "ind".to_owned(),
                    long_name: "indeclinable".to_owned(),
                },
            ),
            Err(e) => Err(e),
        };
        assert(metadata_view(r) == metadata_from_replies(pali1@, replies));
        return r;
    }
    let info = get_index_info(pattern.as_str(), host);
    proof {
        let index_reply = choose|reply: Tables|
            index_info_view(info) == #[trigger] index_info(pattern@, reply);
        replies = MetadataReplies { index: index_reply, ..replies };
    }
    let (inflection_class, like) = match info {
        Ok(found) => found,
        Err(e) => {
            let r = Err(e);
            assert(metadata_view(r) == metadata_from_replies(pali1@, replies));
            return r;
        },
    };
    if str_eq(stem.as_str(), "*") {
        let r = Ok(
            Pali1Metadata {
                pali1: pali1.to_owned(),
                word_type: WordType::Irregular { pattern, inflection_class },
                pos,
                meaning,
                like: "irreg".to_owned(),
                long_name: "irregular".to_owned(),
            },
        );
        assert(metadata_view(r) == metadata_from_replies(pali1@, replies));
        return r;
    }
    let shown = host.transliterate(like.as_str());
    proof {
        replies = MetadataReplies { like: text_view(shown), ..replies };
    }
    let r = match shown {
        Ok(shown) => {
            let mut like = "like ".to_owned();
            like.append(shown.as_str());
            Ok(
                Pali1Metadata {
                    pali1: pali1.to_owned(),
                    word_type: WordType::Declinable { stem, pattern, inflection_class },
                    pos,
                    meaning,
                    like,
                    long_name: "declinable".to_owned(),
                },
            )
        },
        Err(e) => Err(e),
    };
    assert(metadata_view(r) == metadata_from_replies(pali1@, replies));
    r
}

} // verus!
