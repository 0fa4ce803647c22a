use crate::inflections::host::{exec_sql_query, PlsInflectionsHost};
use crate::inflections::pmd::{
    metadata_from_replies, replies_fit, tables_view, text_view, MetadataReplies, Tables,
};
use crate::inflections::{all_inflections, generate_all_inflections, words_view};
use crate::text::{starts_with, str_eq};
use vstd::prelude::*;
use vstd::utf8::is_ascii_chars;

verus! {

/// Where the progress and the trouble of a run are reported.
pub trait PlsLogger {
    fn info(&self, msg: &str);

    fn error(&self, msg: &str);

    fn warning(&self, msg: &str);
}

/// What makes the forms of head words.
pub trait InflectionGenerator {
    fn check_inflection_db<L: PlsLogger>(&self, logger: &L) -> Result<(), String>;

    fn generate_inflection_table_html(&self, pali1: &str) -> String;

    fn generate_all_inflections(&self, pali1: &str) -> Vec<String>;
}

/// A generator that knows no database and makes no forms.
#[derive(Debug, Clone, Copy, PartialEq, Eq)]
pub struct NullInflectionGenerator {}

impl NullInflectionGenerator {
    pub fn new() -> (r: NullInflectionGenerator) {
        NullInflectionGenerator {  }
    }
}

impl Default for NullInflectionGenerator {
    fn default() -> (r: Self) {
        Self::new()
    }
}

impl InflectionGenerator for NullInflectionGenerator {
    fn check_inflection_db<L: PlsLogger>(&self, _logger: &L) -> (r: Result<(), String>)
        ensures
            r is Ok,
    {
        Ok(())
    }

    fn generate_inflection_table_html(&self, _pali1: &str) -> (r: String)
        ensures
            r@.len() == 0,
    {
        String::new()
    }

    fn generate_all_inflections(&self, _pali1: &str) -> (r: Vec<String>)
        ensures
            r@.len() == 0,
    {
        Vec::new()
    }
}

/// Whether a head word is left out of a run that is kept to the head words
/// with a given beginning. With no beginning given, no word is left out.
pub fn is_black_listed_word(pali1: &str, prefix: &str) -> (r: bool)
    ensures
        r == (prefix@.len() > 0 && !prefix@.is_prefix_of(pali1@)),
{
    !prefix.is_empty() && !starts_with(pali1, prefix)
}

/// The message for a table of versions that does not hold what it should.
pub open spec fn unexpected_version_message() -> Seq<char> {
    "Invalid inflection db. Unexpected data in _version table."@
}

/// The message for a database that was built from the wrong source.
pub open spec fn invalid_version_message(commit_id: Seq<char>, repository: Seq<char>) -> Seq<char> {
    "Invalid inflection db: commid_id: "@ + commit_id + ", repository: "@ + repository + "."@
}

/// The message that names the version of the database.
pub open spec fn loaded_version_message(commit_id: Seq<char>, repository: Seq<char>) -> Seq<char> {
    "... loaded version: https://github.com/"@ + repository + "#"@ + commit_id.take(10) + "."@
}

/// The repository from which the database of inflections is built.
pub open spec fn generator_repository() -> Seq<char> {
    "digitalpalitools/inflection-generator"@
}

/// What the table of versions says of the database: the message that names
/// its version, or what is wrong with it. The first row names the commit in
/// its first cell and the repository in its third. The database is refused
/// where the commit has not forty characters and the repository is not the
/// generator's either.
pub open spec fn version_check(tables: Seq<Seq<Seq<Seq<char>>>>) -> Result<Seq<char>, Seq<char>> {
    if !(tables.len() >= 1 && tables[0].len() >= 1 && tables[0][0].len() >= 3) {
        Err(unexpected_version_message())
    } else if tables.len() != 1 && tables[0].len() != 1 && tables[0][0].len() != 3 {
        Err(unexpected_version_message())
    } else {
        let commit_id = tables[0][0][0];
        let repository = tables[0][0][2];
        if !is_ascii_chars(commit_id) {
            Err(unexpected_version_message())
        } else if commit_id.len() != 40 && repository != generator_repository() {
            Err(invalid_version_message(commit_id, repository))
        } else if commit_id.len() < 10 {
            Err(unexpected_version_message())
        } else {
            Ok(loaded_version_message(commit_id, repository))
        }
    }
}

/// Reads the table of versions: the message that names the version of the
/// database, or what is wrong with it.
pub fn check_version_info(ver_info: &Vec<Vec<Vec<String>>>) -> (r: Result<String, String>)
    ensures
        text_view(r) == version_check(ver_info.deep_view()),
{
    proof {
        assert(ver_info.deep_view().len() == ver_info.len());
        if ver_info.len() >= 1 {
            assert(ver_info.deep_view()[0] == ver_info[0].deep_view());
            assert(ver_info[0].deep_view().len() == ver_info[0].len());
            if ver_info[0].len() >= 1 {
                assert(ver_info[0].deep_view()[0] == ver_info[0][0].deep_view());
                assert(ver_info[0][0].deep_view().len() == ver_info[0][0].len());
            }
        }
    }
    if !(ver_info.len() >= 1 && ver_info[0].len() >= 1 && ver_info[0][0].len() >= 3) {
        return Err("Invalid inflection db. Unexpected data in _version table.".to_owned());
    }
    if ver_info.len() != 1 && ver_info[0].len() != 1 && ver_info[0][0].len() != 3 {
        return Err("Invalid inflection db. Unexpected data in _version table.".to_owned());
    }
    let commit_id = &ver_info[0][0][0];
    let repository = &ver_info[0][0][2];
    assert(ver_info[0][0].deep_view()[0] == commit_id@);
    assert(ver_info[0][0].deep_view()[2] == repository@);
    if !commit_id.as_str().is_ascii() {
        return Err("Invalid inflection db. Unexpected data in _version table.".to_owned());
    }
    let commit_len = commit_id.as_str().unicode_len();
    if commit_len != 40 && !str_eq(repository.as_str(), "digitalpalitools/inflection-generator") {
        let mut message = "Invalid inflection db: commid_id: ".to_owned();
        message.append(commit_id.as_str());
        message.append(", repository: ");
        message.append(repository.as_str());
        message.append(".");
        return Err(message);
    }
    if commit_len < 10 {
        return Err("Invalid inflection db. Unexpected data in _version table.".to_owned());
    }
    let mut message = "... loaded version: https://github.com/".to_owned();
    message.append(repository.as_str());
    message.append("#");
    message.append(commit_id.as_str().substring_ascii(0, 10));
    message.append(".");
    assert(commit_id@.subrange(0, 10) =~= commit_id@.take(10));
    Ok(message)
}

/// What a reply on the table of versions says of the database.
pub open spec fn version_check_of_reply(reply: Tables) -> Result<Seq<char>, Seq<char>> {
    match reply {
        Ok(tables) => version_check(tables),
        Err(e) => Err(e),
    }
}

/// Asks the host's database for its version and says whether it is a
/// database of inflections; the logger is told the version or the trouble.
pub fn check_inflection_db<H: PlsInflectionsHost, L: PlsLogger>(host: &H, logger: &L) -> (r: Result<
    (),
    String,
>)
    ensures
        exists|reply: Tables|
            match r {
                Ok(_) => (#[trigger] version_check_of_reply(reply)) is Ok,
                Err(e) => version_check_of_reply(reply) == Err::<Seq<char>, Seq<char>>(e@),
            },
{
    let reply = exec_sql_query(host, "select * from _version");
    let ghost given = tables_view(reply);
    match reply {
        Ok(ver_info) => {
            match check_version_info(&ver_info) {
                Ok(message) => {
                    logger.info(message.as_str());
                    assert(version_check_of_reply(given) is Ok);
                    Ok(())
                },
                Err(message) => {
                    logger.error(message.as_str());
                    assert(version_check_of_reply(given) == Err::<Seq<char>, Seq<char>>(message@));
                    Err(message)
                },
            }
        },
        Err(e) => {
            let mut message = "Unable to load inflection db. Error: ".to_owned();
            message.append(e.as_str());
            message.append(".");
            logger.error(message.as_str());
            assert(version_check_of_reply(given) == Err::<Seq<char>, Seq<char>>(e@));
            Err(e)
        },
    }
}

/// The forms that a result stands for: none where it is a message.
pub open spec fn words_or_none(r: Result<Seq<Seq<char>>, Seq<char>>) -> Seq<Seq<char>> {
    match r {
        Ok(words) => words,
        Err(_) => Seq::empty(),
    }
}

/// All the forms of a head word, for a run that is kept to the head words
/// with a given beginning: none for a word that is left out, and none, with
/// a warning to the host, where the forms cannot be had.
pub fn generate_all_inflections_of<H: PlsInflectionsHost>(
    pali1: &str,
    prefix: &str,
    host: &H,
) -> (r: Vec<String>)
    ensures
        prefix@.len() > 0 && !prefix@.is_prefix_of(pali1@) ==> r@.len() == 0,
        !(prefix@.len() > 0 && !prefix@.is_prefix_of(pali1@)) ==> exists|
            replies: MetadataReplies,
            forms_reply: Tables,
        |
            replies_fit(pali1@, replies) && r.deep_view() == words_or_none(
                #[trigger] all_inflections(metadata_from_replies(pali1@, replies), forms_reply),
            ),
{
    if is_black_listed_word(pali1, prefix) {
        return Vec::new();
    }
    let found = generate_all_inflections(pali1, host);
    let ghost given = words_view(found);
    match found {
        Ok(inflections) => {
            assert(inflections.deep_view() == words_or_none(given));
            inflections
        },
        Err(e) => {
            let mut message = "Unable to generate inflections for '".to_owned();
            message.append(pali1);
            message.append("'. Error: ");
            message.append(e.as_str());
            message.append(".");
            host.log_warning(message.as_str());
            let none: Vec<String> = Vec::new();
            assert(none.deep_view() =~= words_or_none(given));
            none
        },
    }
}

} // verus!
