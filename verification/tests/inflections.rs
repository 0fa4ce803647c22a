use pls_core::inflection_generator::{
    check_inflection_db, check_version_info, generate_all_inflections_of, is_black_listed_word,
    InflectionGenerator, NullInflectionGenerator, PlsLogger,
};
use pls_core::inflections::generators::{
    create_body_view_model, create_case_view_models, create_dual_case_view_models,
    create_indeclinable_view_model, create_pronoun_case_view_models, create_tense_view_models,
    flatten, generate_output, write_conjugation_query, write_declension_query,
    write_gender_count_query, write_pronoun_query, write_tense_count_query,
    write_voice_count_query, BodyViewModel, CaseViewModel, DualCaseViewModel, TenseViewModel,
    CONJUGATION_VALUES_QUERY, DECLENSION_VALUES_QUERY, DUAL_PRONOUN_VALUES_QUERY,
    PRONOUN_VALUES_QUERY,
};
use pls_core::inflections::host::{exec_sql_query, read_reply, PlsInflectionsHost};
use pls_core::inflections::pmd::{
    get_feedback_url_for_inflection_class, get_pali1_metadata, get_stem_for_indeclinable,
    read_index_info, write_index_query, write_stems_query, InflectionClass, Pali1Metadata,
    WordType,
};
use pls_core::inflections::{
    generate_all_inflections, get_abbreviations_for_locale, get_inflections,
    get_table_name_from_pattern, query_has_no_results, read_abbreviations, read_inflections,
    read_no_results, read_single_cell, sort_in_dictionary_order, write_abbreviations_query,
    write_suffixes_query,
};
use std::cell::RefCell;
use std::collections::HashMap;

const VERB_FORM: &str = "https://docs.google.com/forms/d/e/1FAIpQLSeJpx7TsISkYEXzxvbBtOH25T-ZO1Z5NFdujO5SD9qcAH_i1A/viewform";
const NOUN_FORM: &str = "https://docs.google.com/forms/d/e/1FAIpQLSeoxZiqvIWadaLeuXF4f44NCqEn49-B8KNbSvNer5jxgRYdtQ/viewform";

/// A host with a database of canned replies, that marks what it
/// transliterates and keeps its warnings.
struct Host {
    locale: String,
    replies: HashMap<String, Result<String, String>>,
    warnings: RefCell<Vec<String>>,
    queries: RefCell<Vec<String>>,
}

impl Host {
    fn new(locale: &str) -> Host {
        Host {
            locale: locale.to_string(),
            replies: HashMap::new(),
            warnings: RefCell::new(Vec::new()),
            queries: RefCell::new(Vec::new()),
        }
    }

    fn reply(mut self, sql: &str, json: &str) -> Host {
        self.replies.insert(sql.to_string(), Ok(json.to_string()));
        self
    }

    fn fail(mut self, sql: &str, message: &str) -> Host {
        self.replies.insert(sql.to_string(), Err(message.to_string()));
        self
    }

    /// The host of a small dictionary.
    fn dictionary() -> Host {
        Host::new("en")
            .reply(
                r#"select stem, pattern, pos, definition from '_stems' where pāli1 = "ahesuṃ""#,
                r#"[[["!","hoti 2","aor","they were"]]]"#,
            )
            .reply(
                r#"select stem, pattern, pos, definition from '_stems' where pāli1 = "a 1""#,
                r#"[[["-","","ind","not"]]]"#,
            )
            .reply(
                r#"select stem, pattern, pos, definition from '_stems' where pāli1 = "ababa 1""#,
                r#"[[["abab","a nt","nt","a hell"]]]"#,
            )
            .reply(
                r#"select stem, pattern, pos, definition from '_stems' where pāli1 = "hoti 2""#,
                r#"[[["*","hoti pr","pr","is"]]]"#,
            )
            .reply(
                r#"select stem, pattern, pos, definition from '_stems' where pāli1 = "nostem""#,
                r#"[[["","a nt","nt","?"]]]"#,
            )
            .reply(
                r#"select stem, pattern, pos, definition from '_stems' where pāli1 = "odd""#,
                r#"[[["odd","no such pattern","nt","?"]]]"#,
            )
            .reply(
                r#"select stem, pattern, pos, definition from '_stems' where pāli1 = "odder""#,
                r#"[[["odd","odd class","nt","?"]]]"#,
            )
            .reply(
                r#"select inflection_class, like from '_index' where name = "a nt""#,
                r#"[[["","citta"]]]"#,
            )
            .reply(
                r#"select inflection_class, like from '_index' where name = "hoti pr""#,
                r#"[[["verb","irreg"]]]"#,
            )
            .reply(
                r#"select inflection_class, like from '_index' where name = "odd class""#,
                r#"[[["adverb","x"]]]"#,
            )
            .reply("Select * from a_nt", r#"[[["nom","sg","aṃ"],["acc","sg","aṃ"],["nom","pl","āni,ā"]]]"#)
            .reply("Select * from hoti_pr", r#"[[["pr","3rd","hoti"],["pr","1st","homi,"]]]"#)
    }
}

impl PlsInflectionsHost for Host {
    fn get_locale(&self) -> String {
        self.locale.clone()
    }

    fn get_version(&self) -> String {
        "v0.1".to_string()
    }

    fn get_url(&self) -> String {
        "test case".to_string()
    }

    fn transliterate(&self, s: &str) -> Result<String, String> {
        if s == "untransliterable" {
            Err("cannot transliterate".to_string())
        } else {
            Ok(format!("^{}$", s))
        }
    }

    fn exec_sql_query_core(&self, sql: &str) -> Result<String, String> {
        self.queries.borrow_mut().push(sql.to_string());
        match self.replies.get(sql) {
            Some(reply) => reply.clone(),
            None => Ok("[[]]".to_string()),
        }
    }

    fn log_warning(&self, msg: &str) {
        self.warnings.borrow_mut().push(msg.to_string())
    }
}

struct Log {
    lines: RefCell<Vec<String>>,
}

impl PlsLogger for Log {
    fn info(&self, msg: &str) {
        self.lines.borrow_mut().push(format!("info: {}", msg))
    }

    fn error(&self, msg: &str) {
        self.lines.borrow_mut().push(format!("error: {}", msg))
    }

    fn warning(&self, msg: &str) {
        self.lines.borrow_mut().push(format!("warning: {}", msg))
    }
}

fn strings(words: &[&str]) -> Vec<String> {
    words.iter().map(|word| word.to_string()).collect()
}

fn table(cells: &[&[&str]]) -> Vec<Vec<String>> {
    cells.iter().map(|row| strings(row)).collect()
}

#[test]
fn read_reply_reads_json_tables() {
    assert_eq!(
        read_reply(Ok(r#"[[["1","2"],["x","22"]],[]]"#.to_string())),
        Ok(vec![table(&[&["1", "2"], &["x", "22"]]), vec![]])
    );
    assert_eq!(read_reply(Ok("[]".to_string())), Ok(vec![]));
    assert_eq!(
        read_reply(Err("near \"this\": syntax error".to_string())),
        Err("near \"this\": syntax error".to_string())
    );
    assert!(read_reply(Ok("this is no json".to_string())).is_err());
    assert!(read_reply(Ok(r#"[[[1]]]"#.to_string())).is_err());
    assert!(read_reply(Ok(r#"[["a"]]"#.to_string())).is_err());
}

#[test]
fn exec_sql_query_asks_the_host() {
    let host = Host::new("en").reply("select 1", r#"[[["1"]]]"#).fail("select 2", "no");
    assert_eq!(exec_sql_query(&host, "select 1"), Ok(vec![table(&[&["1"]])]));
    assert_eq!(exec_sql_query(&host, "select 2"), Err("no".to_string()));
    assert_eq!(*host.queries.borrow(), strings(&["select 1", "select 2"]));
}

#[test]
fn inflection_class_from_str_knows_five_names() {
    assert_eq!(InflectionClass::from_str("verb"), Ok(InflectionClass::Conjugation));
    assert_eq!(InflectionClass::from_str(""), Ok(InflectionClass::Declension));
    assert_eq!(InflectionClass::from_str("pron1st"), Ok(InflectionClass::DeclensionPron1st));
    assert_eq!(InflectionClass::from_str("pron2nd"), Ok(InflectionClass::DeclensionPron2nd));
    assert_eq!(InflectionClass::from_str("prondual"), Ok(InflectionClass::DeclensionPronDual));
    assert_eq!(
        InflectionClass::from_str("adverb"),
        Err("Unknown inflection_class 'adverb'.".to_string())
    );
    assert_eq!("verb".parse::<InflectionClass>(), Ok(InflectionClass::Conjugation));
    assert!("Verb".parse::<InflectionClass>().is_err());
}

#[test]
fn feedback_url_is_one_for_verbs_and_one_for_the_rest() {
    assert_eq!(
        get_feedback_url_for_inflection_class(&InflectionClass::Conjugation),
        VERB_FORM
    );
    for class in [
        InflectionClass::Declension,
        InflectionClass::DeclensionPron1st,
        InflectionClass::DeclensionPron2nd,
        InflectionClass::DeclensionPronDual,
    ] {
        assert_eq!(get_feedback_url_for_inflection_class(&class), NOUN_FORM);
    }
}

#[test]
fn stem_for_indeclinable_drops_the_homonym_number() {
    assert_eq!(get_stem_for_indeclinable("a 1"), Ok("a".to_string()));
    assert_eq!(get_stem_for_indeclinable("kāmaṃ 3"), Ok("kāmaṃ".to_string()));
    assert_eq!(get_stem_for_indeclinable("kāmaṃ 13"), Ok("kāmaṃ".to_string()));
    assert_eq!(get_stem_for_indeclinable("ca"), Ok("ca".to_string()));
    assert_eq!(get_stem_for_indeclinable("a 1 b"), Ok("a 1 b".to_string()));
    assert_eq!(get_stem_for_indeclinable("a 1 2"), Ok("a 1".to_string()));
    assert_eq!(get_stem_for_indeclinable("a1"), Ok("a1".to_string()));
}

#[test]
fn read_index_info_reads_class_and_like() {
    assert_eq!(
        read_index_info("eti pr", Ok(vec![table(&[&["verb", "bhāveti"]])])),
        Ok((InflectionClass::Conjugation, "bhāveti".to_string()))
    );
    assert_eq!(
        read_index_info("a nt", Ok(vec![table(&[&["", "citta", "more"]]), vec![]])),
        Ok((InflectionClass::Declension, "citta".to_string()))
    );
    assert_eq!(
        read_index_info("a nt", Ok(vec![vec![]])),
        Err("Pattern 'a nt' not found in db.".to_string())
    );
    assert_eq!(
        read_index_info("a nt", Ok(vec![table(&[&["verb"]])])),
        Err("Pattern 'a nt' not found in db.".to_string())
    );
    assert_eq!(
        read_index_info("a nt", Ok(vec![table(&[&["noun", "x"]])])),
        Err("Unknown inflection_class 'noun'.".to_string())
    );
    assert_eq!(read_index_info("a nt", Err("no db".to_string())), Err("no db".to_string()));
}

#[test]
fn get_pali1_metadata_tests() {
    let host = Host::dictionary();

    assert_eq!(
        get_pali1_metadata("0xdeadbeef", &host),
        Err("Word '0xdeadbeef' not found in db.".to_string())
    );
    assert_eq!(
        get_pali1_metadata("ahesuṃ", &host),
        Ok(Pali1Metadata {
            pali1: "ahesuṃ".to_string(),
            word_type: WordType::InflectedForm {
                stems: "hoti 2".to_string()
            },
            pos: "aor".to_string(),
            meaning: "they were".to_string(),
            like: "infl".to_string(),
            long_name: "inflected form".to_string(),
        })
    );
    assert_eq!(
        get_pali1_metadata("a 1", &host),
        Ok(Pali1Metadata {
            pali1: "a 1".to_string(),
            word_type: WordType::Indeclinable {
                stem: "a".to_string()
            },
            pos: "ind".to_string(),
            meaning: "not".to_string(),
            like: "ind".to_string(),
            long_name: "indeclinable".to_string(),
        })
    );
    assert_eq!(
        get_pali1_metadata("ababa 1", &host),
        Ok(Pali1Metadata {
            pali1: "ababa 1".to_string(),
            word_type: WordType::Declinable {
                stem: "abab".to_string(),
                pattern: "a nt".to_string(),
                inflection_class: InflectionClass::Declension,
            },
            pos: "nt".to_string(),
            meaning: "a hell".to_string(),
            like: "like ^citta$".to_string(),
            long_name: "declinable".to_string(),
        })
    );
    assert_eq!(
        get_pali1_metadata("hoti 2", &host),
        Ok(Pali1Metadata {
            pali1: "hoti 2".to_string(),
            word_type: WordType::Irregular {
                pattern: "hoti pr".to_string(),
                inflection_class: InflectionClass::Conjugation,
            },
            pos: "pr".to_string(),
            meaning: "is".to_string(),
            like: "irreg".to_string(),
            long_name: "irregular".to_string(),
        })
    );
}

#[test]
fn get_pali1_metadata_says_what_is_wrong() {
    let host = Host::dictionary().fail(
        r#"select stem, pattern, pos, definition from '_stems' where pāli1 = "broken""#,
        "database is locked",
    );
    assert_eq!(
        get_pali1_metadata("nostem", &host),
        Err("Stem cannot be empty".to_string())
    );
    assert_eq!(
        get_pali1_metadata("odd", &host),
        Err("Pattern 'no such pattern' not found in db.".to_string())
    );
    assert_eq!(
        get_pali1_metadata("odder", &host),
        Err("Unknown inflection_class 'adverb'.".to_string())
    );
    assert_eq!(
        get_pali1_metadata("broken", &host),
        Err("database is locked".to_string())
    );
}

#[test]
fn metadata_queries_name_the_word_and_the_pattern() {
    assert_eq!(
        write_stems_query("ābādheti"),
        r#"select stem, pattern, pos, definition from '_stems' where pāli1 = "ābādheti""#
    );
    assert_eq!(
        write_index_query("eti pr"),
        r#"select inflection_class, like from '_index' where name = "eti pr""#
    );
    assert_eq!(write_suffixes_query("eti_pr"), "Select * from eti_pr");
    let host = Host::dictionary();
    assert!(get_pali1_metadata("ababa 1", &host).is_ok());
    assert_eq!(
        *host.queries.borrow(),
        vec![write_stems_query("ababa 1"), write_index_query("a nt")]
    );
}

#[test]
fn table_name_has_underscores_for_blanks() {
    assert_eq!(get_table_name_from_pattern("a nt"), "a_nt");
    assert_eq!(get_table_name_from_pattern("eti pr"), "eti_pr");
    assert_eq!(get_table_name_from_pattern("ahosi"), "ahosi");
}

#[test]
fn read_inflections_joins_stem_and_endings() {
    let reply = Ok(vec![
        table(&[&["ignored"]]),
        table(&[&["nom", "aṃ"], &["acc", "aṃ,ā"], &[""]]),
    ]);
    assert_eq!(
        read_inflections("abab", "a_nt", reply),
        Ok(strings(&["ababaṃ", "ababaṃ", "ababā", "abab"]))
    );
    assert_eq!(
        read_inflections("abab", "a_nt", Ok(vec![])),
        Err("No pattern found for a_nt".to_string())
    );
    assert_eq!(
        read_inflections("abab", "a_nt", Ok(vec![vec![strings(&["aṃ"]), vec![]]])),
        Err("No pattern found for a_nt".to_string())
    );
    assert_eq!(read_inflections("abab", "a_nt", Ok(vec![vec![]])), Ok(vec![]));
    assert_eq!(
        read_inflections("abab", "a_nt", Err("no db".to_string())),
        Err("no db".to_string())
    );
}

#[test]
fn inflected_word_tests() {
    let host = Host::dictionary();

    assert_eq!(generate_all_inflections("ahesuṃ", &host), Ok(vec![]));
    assert_eq!(generate_all_inflections("a 1", &host), Ok(strings(&["a"])));
    assert_eq!(
        generate_all_inflections("ababa 1", &host),
        Ok(strings(&["ababaṃ", "ababaṃ", "ababāni", "ababā"]))
    );
    assert_eq!(
        generate_all_inflections("hoti 2", &host),
        Ok(strings(&["hoti", "homi", ""]))
    );
    assert_eq!(
        generate_all_inflections("xyz", &host),
        Err("Word 'xyz' not found in db.".to_string())
    );
}

#[test]
fn sort_in_dictionary_order_sorts_by_the_alphabet() {
    assert_eq!(
        sort_in_dictionary_order(strings(&["b", "kh", "ā", "k", "a", "x", "ka", "", "a"])),
        strings(&["", "a", "a", "ā", "k", "ka", "kh", "b", "x"])
    );
    assert_eq!(sort_in_dictionary_order(vec![]), Vec::<String>::new());
}

#[test]
fn read_single_cell_wants_one_cell() {
    assert_eq!(read_single_cell(Ok(vec![table(&[&["a,b"]])])), "a,b");
    assert_eq!(read_single_cell(Ok(vec![table(&[&["a", "b"]])])), "");
    assert_eq!(read_single_cell(Ok(vec![table(&[&["a"], &["b"]])])), "");
    assert_eq!(read_single_cell(Ok(vec![])), "");
    assert_eq!(read_single_cell(Ok(vec![vec![], vec![]])), "");
    assert_eq!(read_single_cell(Err("no db".to_string())), "no db");
}

#[test]
fn get_inflections_shows_the_forms_in_order() {
    let host = Host::new("en")
        .reply("forms", r#"[[["o,,ā,aṃ"]]]"#)
        .fail("broken", "no,db");
    assert_eq!(
        get_inflections("buddh", "forms", &host),
        strings(&["", "^buddhaṃ$", "^buddhā$", "^buddho$"])
    );
    assert_eq!(get_inflections("buddh", "nothing", &host), strings(&[""]));
    assert_eq!(get_inflections("x", "broken", &host), strings(&["^xdb$", "^xno$"]));
}

#[test]
fn no_results_is_a_count_of_zero() {
    assert_eq!(read_no_results(Ok(vec![table(&[&["0"]])])), Ok(true));
    assert_eq!(read_no_results(Ok(vec![table(&[&["12"]])])), Ok(false));
    assert_eq!(read_no_results(Ok(vec![table(&[&["00"]])])), Ok(false));
    assert_eq!(
        read_no_results(Ok(vec![vec![]])),
        Err("sql query did not return a scalar".to_string())
    );
    assert_eq!(read_no_results(Err("no db".to_string())), Err("no db".to_string()));
    let host = Host::new("en").reply("count", r#"[[["0"]]]"#);
    assert_eq!(query_has_no_results("count", &host), Ok(true));
}

#[test]
fn abbreviations_query_goes_by_the_locale() {
    assert_eq!(
        write_abbreviations_query("xx"),
        "select name, description, '^' || name || '$' from _abbreviations"
    );
    assert_eq!(
        write_abbreviations_query("en"),
        "select name, description, name from _abbreviations"
    );
    assert_eq!(
        write_abbreviations_query("hi"),
        "select name, description, hi from _abbreviations"
    );
}

#[test]
fn abbreviations_come_under_name_and_description() {
    let reply = Ok(vec![table(&[
        &["nom", "nominative", "^nom$"],
        &["pl", "plural", "^pl$"],
    ])]);
    assert_eq!(
        read_abbreviations(reply),
        Ok(vec![
            ("nom".to_string(), "^nom$".to_string()),
            ("nominative".to_string(), "^nom$".to_string()),
            ("pl".to_string(), "^pl$".to_string()),
            ("plural".to_string(), "^pl$".to_string()),
        ])
    );
    assert_eq!(read_abbreviations(Ok(vec![vec![]])), Ok(vec![]));
    assert_eq!(
        read_abbreviations(Ok(vec![])),
        Err("sql query did not return the abbreviations".to_string())
    );
    assert_eq!(
        read_abbreviations(Ok(vec![table(&[&["nom", "nominative"]])])),
        Err("sql query did not return the abbreviations".to_string())
    );
    let host = Host::new("xx").reply(
        "select name, description, '^' || name || '$' from _abbreviations",
        r#"[[["sg","singular","^sg$"]]]"#,
    );
    assert_eq!(
        get_abbreviations_for_locale(&host),
        Ok(vec![
            ("sg".to_string(), "^sg$".to_string()),
            ("singular".to_string(), "^sg$".to_string()),
        ])
    );
}

#[test]
fn generator_queries_are_written_as_the_tables_want_them() {
    assert_eq!(
        write_tense_count_query("eti_pr", "pr"),
        r#"select cast(count(*) as text) from eti_pr where tense = "pr""#
    );
    assert_eq!(
        write_voice_count_query("eti_pr", "pr", "act"),
        r#"select cast(count(*) as text) from 'eti_pr' where tense = "pr" and actreflx = "act""#
    );
    assert_eq!(
        write_conjugation_query("eti_pr", "pr", "3rd", "act", "sg"),
        r#"SELECT inflections FROM 'eti_pr' WHERE tense = 'pr' AND person = '3rd' AND actreflx = 'act' AND "number" = 'sg'"#
    );
    assert_eq!(
        write_gender_count_query("a_nt", "nt"),
        r#"select cast(count(*) as text) from 'a_nt' where gender = "nt""#
    );
    assert_eq!(
        write_declension_query("a_nt", "nom", "nt", "sg"),
        r#"SELECT inflections FROM 'a_nt' WHERE "case" = 'nom' AND gender = 'nt' AND "number" = 'sg'"#
    );
    assert_eq!(
        write_pronoun_query("ahaṃ", "nom", "1st", "sg"),
        r#"SELECT inflections FROM 'ahaṃ' WHERE "case" = 'nom' AND special_pron_class = '1st' AND "number" = 'sg'"#
    );
}

#[test]
fn flatten_lists_the_cells_row_after_row() {
    assert_eq!(
        flatten(&table(&[&["pr"], &["imp", "opt"], &[], &["fut"]])),
        strings(&["pr", "imp", "opt", "fut"])
    );
    assert_eq!(flatten(&vec![]), Vec::<String>::new());
}

#[test]
fn tense_view_models_leave_out_tenses_without_forms() {
    let host = Host::new("en")
        .reply(
            CONJUGATION_VALUES_QUERY,
            r#"[[["pr"],["fut"]],[["3rd"],["1st"]],[["act"],["reflx"]],[["sg"]]]"#,
        )
        .reply(r#"select cast(count(*) as text) from eti_pr where tense = "pr""#, r#"[[["8"]]]"#)
        .reply(r#"select cast(count(*) as text) from eti_pr where tense = "fut""#, r#"[[["0"]]]"#)
        .reply(
            r#"select cast(count(*) as text) from 'eti_pr' where tense = "pr" and actreflx = "act""#,
            r#"[[["4"]]]"#,
        )
        .reply(
            r#"select cast(count(*) as text) from 'eti_pr' where tense = "pr" and actreflx = "reflx""#,
            r#"[[["0"]]]"#,
        )
        .reply(
            r#"SELECT inflections FROM 'eti_pr' WHERE tense = 'pr' AND person = '3rd' AND actreflx = 'act' AND "number" = 'sg'"#,
            r#"[[["eti,ati"]]]"#,
        );
    assert_eq!(
        create_tense_view_models("eti_pr", "bhāv", &host),
        Ok(vec![TenseViewModel {
            name: "pr".to_string(),
            inflections_list: vec![
                strings(&["^bhāvati$", "^bhāveti$"]),
                strings(&[""]),
                strings(&[""]),
                strings(&[""]),
            ],
            ar_values_exist: vec![true, false],
        }])
    );
    assert_eq!(
        create_tense_view_models("eti_pr", "bhāv", &Host::new("en")),
        Err("sql query did not return the values".to_string())
    );
}

#[test]
fn case_view_models_have_a_list_for_each_gender_and_number() {
    let host = Host::new("en")
        .reply(
            DECLENSION_VALUES_QUERY,
            r#"[[["nom"],["acc"]],[["masc"],["nt"]],[["sg"],["pl"]]]"#,
        )
        .reply(
            r#"select cast(count(*) as text) from 'a_nt' where gender = "masc""#,
            r#"[[["0"]]]"#,
        )
        .reply(
            r#"select cast(count(*) as text) from 'a_nt' where gender = "nt""#,
            r#"[[["16"]]]"#,
        )
        .reply(
            r#"SELECT inflections FROM 'a_nt' WHERE "case" = 'acc' AND gender = 'nt' AND "number" = 'pl'"#,
            r#"[[["e,āni"]]]"#,
        );
    let empty = strings(&[""]);
    assert_eq!(
        create_case_view_models("a_nt", "citt", &host),
        Ok((
            vec![
                CaseViewModel {
                    name: "nom".to_string(),
                    inflections_list: vec![empty.clone(), empty.clone(), empty.clone(), empty.clone()],
                },
                CaseViewModel {
                    name: "acc".to_string(),
                    inflections_list: vec![
                        empty.clone(),
                        empty.clone(),
                        empty.clone(),
                        strings(&["^cittāni$", "^citte$"]),
                    ],
                },
            ],
            vec![false, true]
        ))
    );
}

#[test]
fn pronoun_view_models_go_by_case_and_number() {
    let host = Host::new("en")
        .reply(PRONOUN_VALUES_QUERY, r#"[[["nom"]],[["sg"],["pl"]]]"#)
        .reply(DUAL_PRONOUN_VALUES_QUERY, r#"[[["nom"],["acc"]]]"#)
        .reply(
            r#"SELECT inflections FROM 'ahaṃ' WHERE "case" = 'nom' AND special_pron_class = '1st' AND "number" = 'pl'"#,
            r#"[[["mayaṃ,amhe"]]]"#,
        )
        .reply(
            r#"SELECT inflections FROM 'ubha' WHERE "case" = 'acc' AND special_pron_class = 'dual' AND "number" = 'sg'"#,
            r#"[[["ubho"]]]"#,
        );
    assert_eq!(
        create_pronoun_case_view_models("1st", "ahaṃ", "", &host),
        Ok(vec![CaseViewModel {
            name: "nom".to_string(),
            inflections_list: vec![strings(&[""]), strings(&["^amhe$", "^mayaṃ$"])],
        }])
    );
    assert_eq!(
        create_dual_case_view_models("ubha", "", &host),
        Ok(vec![
            DualCaseViewModel {
                name: "nom".to_string(),
                inflections: strings(&[""]),
            },
            DualCaseViewModel {
                name: "acc".to_string(),
                inflections: strings(&["^ubho$"]),
            },
        ])
    );
}

#[test]
fn body_view_model_goes_by_the_word_type() {
    let host = Host::dictionary()
        .reply(
            CONJUGATION_VALUES_QUERY,
            r#"[[["pr"]],[["3rd"]],[["act"]],[["sg"]]]"#,
        )
        .reply(DECLENSION_VALUES_QUERY, r#"[[["nom"]],[["nt"]],[["sg"]]]"#)
        .reply(
            r#"select cast(count(*) as text) from 'a_nt' where gender = "nt""#,
            r#"[[["16"]]]"#,
        )
        .reply(
            r#"select cast(count(*) as text) from hoti_pr where tense = "pr""#,
            r#"[[["6"]]]"#,
        )
        .reply(
            r#"select cast(count(*) as text) from 'hoti_pr' where tense = "pr" and actreflx = "act""#,
            r#"[[["6"]]]"#,
        )
        .reply(
            "select name, description, name from _abbreviations",
            r#"[[["sg","singular","sg"]]]"#,
        );

    let inflected = get_pali1_metadata("ahesuṃ", &host).expect("in the dictionary");
    match create_body_view_model(&inflected, &host, true) {
        Ok((BodyViewModel::Indeclinable(vm), false)) => {
            assert_eq!(vm.word, "^hoti 2$");
            assert!(vm.is_inflected_form);
            assert_eq!(vm.meaning, "they were");
            assert_eq!(vm.pos, "aor");
            assert!(vm.with_details);
        }
        other => panic!("{:?}", other),
    }

    let indeclinable = get_pali1_metadata("a 1", &host).expect("in the dictionary");
    let vm = create_indeclinable_view_model(&indeclinable, &host, false).expect("a view model");
    assert_eq!(vm.word, "^a 1$");
    assert!(!vm.is_inflected_form);
    assert!(!vm.with_details);

    let noun = get_pali1_metadata("ababa 1", &host).expect("in the dictionary");
    match create_body_view_model(&noun, &host, true) {
        Ok((BodyViewModel::Declension(vm), true)) => {
            assert_eq!(vm.pattern, "a nt");
            assert_eq!(vm.stem, "abab");
            assert_eq!(vm.view_models.len(), 1);
            assert_eq!(vm.g_values_exist.len(), 1);
        }
        other => panic!("{:?}", other),
    }
    assert_eq!(
        create_indeclinable_view_model(&noun, &host, true),
        Err("WordType should be either InflectedForm or Indeclinable.".to_string())
    );

    let verb = get_pali1_metadata("hoti 2", &host).expect("in the dictionary");
    match create_body_view_model(&verb, &host, true) {
        Ok((BodyViewModel::Conjugation(vm), true)) => {
            assert_eq!(vm.stem, "");
            assert_eq!(vm.abbrev_map.len(), 2);
        }
        other => panic!("{:?}", other),
    }
}

#[test]
fn output_view_model_holds_what_is_known_of_the_word() {
    let host = Host::dictionary();
    let verb = get_pali1_metadata("hoti 2", &host).expect("in the dictionary");
    let vm = generate_output(&verb, "hoti 2", true, "<table />", true, &host).expect("a view model");
    assert_eq!(vm.pali1, "^hoti 2$");
    assert!(vm.with_details);
    assert_eq!(vm.pattern, "hoti pr");
    assert_eq!(vm.like, "irreg");
    assert_eq!(vm.pos, "pr");
    assert_eq!(vm.meaning, "is");
    assert_eq!(vm.body, "<table />");
    assert!(vm.has_inflection_table);
    assert_eq!(vm.feedback_form_url, VERB_FORM);
    assert_eq!(vm.host_url, "test case");
    assert_eq!(vm.host_version, "v0.1");

    let indeclinable = get_pali1_metadata("a 1", &host).expect("in the dictionary");
    let vm = generate_output(&indeclinable, "a 1", false, "", false, &host).expect("a view model");
    assert_eq!(vm.pattern, "");
    assert_eq!(vm.feedback_form_url, NOUN_FORM);
    assert!(!vm.has_inflection_table);

    assert_eq!(
        generate_output(&indeclinable, "untransliterable", false, "", false, &host),
        Err("cannot transliterate".to_string())
    );
}

#[test]
fn black_list_keeps_a_run_to_one_beginning() {
    assert!(!is_black_listed_word("ababa 1", ""));
    assert!(!is_black_listed_word("ababa 1", "ab"));
    assert!(is_black_listed_word("ababa 1", "b"));
    assert!(is_black_listed_word("", "b"));
    assert!(!is_black_listed_word("", ""));
}

#[test]
fn null_generator_makes_nothing() {
    let igen = NullInflectionGenerator::new();
    let log = Log {
        lines: RefCell::new(Vec::new()),
    };
    assert_eq!(igen.check_inflection_db(&log), Ok(()));
    assert_eq!(igen.generate_inflection_table_html("ababa 1"), "");
    assert_eq!(igen.generate_all_inflections("ababa 1"), Vec::<String>::new());
    assert_eq!(NullInflectionGenerator::default(), igen);
    assert!(log.lines.borrow().is_empty());
}

#[test]
fn version_check_names_the_version_or_the_trouble() {
    let commit = "0123456789abcdef0123456789abcdef01234567";
    assert_eq!(
        check_version_info(&vec![table(&[&[commit, "x", "digitalpalitools/inflection-generator"]])]),
        Ok("... loaded version: https://github.com/digitalpalitools/inflection-generator#0123456789.".to_string())
    );
    assert_eq!(
        check_version_info(&vec![table(&[&["0123456789ab", "x", "digitalpalitools/inflection-generator"]])]),
        Ok("... loaded version: https://github.com/digitalpalitools/inflection-generator#0123456789.".to_string())
    );
    assert_eq!(
        check_version_info(&vec![table(&[&[commit, "x", "someone/else"]])]),
        Ok("... loaded version: https://github.com/someone/else#0123456789.".to_string())
    );
    assert_eq!(
        check_version_info(&vec![table(&[&["0123456789ab", "x", "someone/else"]])]),
        Err("Invalid inflection db: commid_id: 0123456789ab, repository: someone/else.".to_string())
    );
    let unexpected = Err("Invalid inflection db. Unexpected data in _version table.".to_string());
    assert_eq!(check_version_info(&vec![]), unexpected);
    assert_eq!(check_version_info(&vec![vec![]]), unexpected);
    assert_eq!(check_version_info(&vec![table(&[&[commit, "x"]])]), unexpected);
    assert_eq!(
        check_version_info(&vec![table(&[&["abc", "x", "digitalpalitools/inflection-generator"]])]),
        unexpected
    );
    assert_eq!(
        check_version_info(&vec![
            table(&[&[commit, "x", "r", "more"], &[commit, "x", "r"]]),
            vec![]
        ]),
        unexpected
    );
}

#[test]
fn check_inflection_db_tells_the_logger() {
    let commit = "0123456789abcdef0123456789abcdef01234567";
    let host = Host::new("en").reply(
        "select * from _version",
        &format!(r#"[[["{}","x","digitalpalitools/inflection-generator"]]]"#, commit),
    );
    let log = Log {
        lines: RefCell::new(Vec::new()),
    };
    assert_eq!(check_inflection_db(&host, &log), Ok(()));
    assert_eq!(
        *log.lines.borrow(),
        strings(&["info: ... loaded version: https://github.com/digitalpalitools/inflection-generator#0123456789."])
    );

    let host = Host::new("en").fail("select * from _version", "no such table: _version");
    let log = Log {
        lines: RefCell::new(Vec::new()),
    };
    assert_eq!(
        check_inflection_db(&host, &log),
        Err("no such table: _version".to_string())
    );
    assert_eq!(
        *log.lines.borrow(),
        strings(&["error: Unable to load inflection db. Error: no such table: _version."])
    );

    let log = Log {
        lines: RefCell::new(Vec::new()),
    };
    assert_eq!(
        check_inflection_db(&Host::new("en"), &log),
        Err("Invalid inflection db. Unexpected data in _version table.".to_string())
    );
    assert_eq!(
        *log.lines.borrow(),
        strings(&["error: Invalid inflection db. Unexpected data in _version table."])
    );
}

#[test]
fn guarded_generation_warns_and_gives_nothing() {
    let host = Host::dictionary();
    assert_eq!(
        generate_all_inflections_of("ababa 1", "", &host),
        strings(&["ababaṃ", "ababaṃ", "ababāni", "ababā"])
    );
    assert_eq!(
        generate_all_inflections_of("ababa 1", "ab", &host),
        strings(&["ababaṃ", "ababaṃ", "ababāni", "ababā"])
    );
    assert!(host.warnings.borrow().is_empty());
    let asked = host.queries.borrow().len();
    assert_eq!(generate_all_inflections_of("ababa 1", "x", &host), Vec::<String>::new());
    assert_eq!(host.queries.borrow().len(), asked);
    assert_eq!(generate_all_inflections_of("xyz", "", &host), Vec::<String>::new());
    assert_eq!(
        *host.warnings.borrow(),
        strings(&["Unable to generate inflections for 'xyz'. Error: Word 'xyz' not found in db.."])
    );
}
