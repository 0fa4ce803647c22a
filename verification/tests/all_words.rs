use pls_core::all_words::{
    add_inflections, create_inflection_infos, create_inflection_sql_queries, read_stems,
    sorted_unique, InflectionInfo, InflectionSqlQueryBatchInfo, InflectionsBatchInfo, StemInfo,
    StemInfoIterator,
};
use pls_core::inflection_generator::{InflectionGenerator, NullInflectionGenerator, PlsLogger};

struct FixedGenerator;

impl InflectionGenerator for FixedGenerator {
    fn check_inflection_db<L: PlsLogger>(&self, _logger: &L) -> Result<(), String> {
        Ok(())
    }

    fn generate_inflection_table_html(&self, _pali1: &str) -> String {
        String::new()
    }

    fn generate_all_inflections(&self, pali1: &str) -> Vec<String> {
        match pali1 {
            "ababa 1" => vec!["ababo", "ababaṃ", "ababā", "ababaṃ", "ababa"],
            "ababa 2" => vec!["ababa"],
            _ => vec![],
        }
        .into_iter()
        .map(|form| form.to_string())
        .collect()
    }
}

fn strings(words: &[&str]) -> Vec<String> {
    words.iter().map(|word| word.to_string()).collect()
}

fn info(pali1_id: i64, inflection: &str) -> InflectionInfo {
    InflectionInfo {
        pali1_id,
        inflection: inflection.to_string(),
    }
}

/// Answers the queries of a walk over a table of `rows` stems as a database
/// would: the rows from the offset on, as many as are asked for.
fn answer(sql: &str, rows: i64) -> Result<Vec<Vec<Vec<String>>>, String> {
    let limits = sql.rsplit("LIMIT ").next().expect("a LIMIT clause");
    let mut parts = limits.split(',');
    let offset: i64 = parts.next().expect("an offset").parse().expect("a number");
    let count: i64 = parts.next().expect("a count").parse().expect("a number");
    let mut table = Vec::new();
    let mut row = offset;
    while row < rows && row < offset + count {
        table.push(vec![(row + 1).to_string(), format!("word {}", row + 1)]);
        row += 1;
    }
    Ok(vec![table])
}

fn walk(sii: &mut StemInfoIterator, rows: i64) -> Vec<Vec<StemInfo>> {
    let mut batches = Vec::new();
    loop {
        let sql = sii.next_query();
        match sii.accept(answer(&sql, rows)) {
            Some(batch) => batches.push(batch),
            None => return batches,
        }
    }
}

#[test]
fn inflection_info_test_create_inflection_infos() {
    let stems = vec![
        StemInfo {
            row_id: 7,
            pali1: "ababa 1".to_string(),
        },
        StemInfo {
            row_id: 8,
            pali1: "ababa 2".to_string(),
        },
        StemInfo {
            row_id: 32,
            pali1: "abbahe".to_string(),
        },
    ];
    let infl_infos = create_inflection_infos(stems, &FixedGenerator);

    assert_eq!(
        infl_infos,
        InflectionsBatchInfo {
            inflection_infos: vec![
                info(7, "ababa"),
                info(7, "ababaṃ"),
                info(7, "ababo"),
                info(7, "ababā"),
                info(8, "ababa"),
            ],
            inflected_forms_fetched: 1,
        }
    );
}

#[test]
fn inflection_sql_queries_test_create_inflection_infos() {
    let inflection_infos = InflectionsBatchInfo {
        inflected_forms_fetched: 10005,
        inflection_infos: vec![info(102, "102-1"), info(102, "102-2"), info(103, "103-1")],
    };

    let inflected_forms_fetched = inflection_infos.inflected_forms_fetched;
    let isqbi = create_inflection_sql_queries(inflection_infos);

    assert_eq!(inflected_forms_fetched, isqbi.inflected_forms_fetched);
    assert_eq!(
        isqbi,
        InflectionSqlQueryBatchInfo {
            inflection_sql_queries: strings(&[
                "BEGIN",
                "INSERT INTO _all_words (inflection, stem_id) VALUES ('102-1', 102)",
                "INSERT INTO _all_words (inflection, stem_id) VALUES ('102-2', 102)",
                "INSERT INTO _all_words (inflection, stem_id) VALUES ('103-1', 103)",
                "END",
            ]),
            inflected_forms_fetched: 10005,
        }
    );
}

#[test]
fn test_iterator_uneven_batches() {
    let mut sii = StemInfoIterator::new(1000, 11);
    for _si in walk(&mut sii, 34911) {}

    assert_eq!(sii.max_stems_to_fetch, 1000);
    assert_eq!(sii.max_batch_size, 11);
    assert_eq!(sii.stems_fetched, 1000);
    assert_eq!(sii.batches_fetched, 91);
    assert_eq!(sii.error, None);
}

#[test]
fn test_iterator_even_batches() {
    let mut sii = StemInfoIterator::new(1000, 10);
    for _si in walk(&mut sii, 34911) {}

    assert_eq!(sii.max_stems_to_fetch, 1000);
    assert_eq!(sii.max_batch_size, 10);
    assert_eq!(sii.stems_fetched, 1000);
    assert_eq!(sii.batches_fetched, 100);
    assert_eq!(sii.error, None);
}

#[test]
fn test_iterator_trailing_batches() {
    let mut sii = StemInfoIterator::new(25, 10);
    for _si in walk(&mut sii, 34911) {}

    assert_eq!(sii.max_stems_to_fetch, 25);
    assert_eq!(sii.max_batch_size, 10);
    assert_eq!(sii.stems_fetched, 25);
    assert_eq!(sii.batches_fetched, 3);
    assert_eq!(sii.error, None);
}

#[test]
fn iterator_stops_where_the_table_ends() {
    let mut sii = StemInfoIterator::new(1000, 10);
    let batches = walk(&mut sii, 25);

    assert_eq!(batches.len(), 3);
    assert_eq!(batches[2].len(), 5);
    assert_eq!(
        batches[0][0],
        StemInfo {
            row_id: 1,
            pali1: "word 1".to_string()
        }
    );
    assert_eq!(sii.stems_fetched, 25);
    assert_eq!(sii.batches_fetched, 3);
    assert_eq!(sii.error, None);
}

#[test]
fn iterator_writes_the_query_for_the_next_batch() {
    let mut sii = StemInfoIterator::new(25, 10);
    assert_eq!(
        sii.next_query(),
        "SELECT CAST(rowid AS TEXT), pāli1 FROM '_stems' order by rowid LIMIT 0,10"
    );
    sii.stems_fetched = 20;
    assert_eq!(
        sii.next_query(),
        "SELECT CAST(rowid AS TEXT), pāli1 FROM '_stems' order by rowid LIMIT 20,5"
    );
}

#[test]
fn iterator_keeps_the_message_of_a_failed_query() {
    let mut sii = StemInfoIterator::new(25, 10);
    assert_eq!(sii.accept(Err("no such table: _stems".to_string())), None);
    assert_eq!(sii.error, Some("no such table: _stems".to_string()));
    assert_eq!(sii.stems_fetched, 0);
    assert_eq!(sii.batches_fetched, 0);
}

#[test]
fn iterator_refuses_rows_without_a_number() {
    let mut sii = StemInfoIterator::new(25, 10);
    let rows = vec![vec![strings(&["1", "a 1"]), strings(&["x", "a 2"])]];
    assert_eq!(sii.accept(Ok(rows)), None);
    assert_eq!(
        sii.error,
        Some("rowid must be i64. check for db corruption.".to_string())
    );
    assert_eq!(sii.stems_fetched, 0);
    assert_eq!(sii.batches_fetched, 0);

    let mut sii = StemInfoIterator::new(25, 10);
    assert_eq!(sii.accept(Ok(vec![vec![strings(&["1"])]])), None);
    assert!(sii.error.is_some());
}

#[test]
fn iterator_ends_on_an_empty_or_odd_reply() {
    let mut sii = StemInfoIterator::new(25, 10);
    assert_eq!(sii.accept(Ok(vec![vec![]])), None);
    assert_eq!(sii.accept(Ok(vec![])), None);
    let row = vec![strings(&["1", "a 1"])];
    assert_eq!(sii.accept(Ok(vec![row.clone(), row.clone()])), None);
    assert_eq!(sii.error, None);
    assert_eq!(sii.stems_fetched, 0);

    let mut done = StemInfoIterator::new(0, 10);
    assert_eq!(done.accept(Ok(vec![row])), None);
    assert_eq!(done.batches_fetched, 0);
}

#[test]
fn read_stems_reads_each_row() {
    let rows = vec![strings(&["7", "ababa 1"]), strings(&["-8", "ababa 2", "more"])];
    assert_eq!(
        read_stems(&rows),
        Some(vec![
            StemInfo {
                row_id: 7,
                pali1: "ababa 1".to_string()
            },
            StemInfo {
                row_id: -8,
                pali1: "ababa 2".to_string()
            },
        ])
    );
    assert_eq!(read_stems(&vec![]), Some(vec![]));
    assert_eq!(read_stems(&vec![strings(&["7"])]), None);
    assert_eq!(read_stems(&vec![strings(&["7.5", "a"])]), None);
}

#[test]
fn sorted_unique_sorts_and_drops_repeats() {
    assert_eq!(
        sorted_unique(strings(&["b", "a", "b", "ā", "a", "ab", ""])),
        strings(&["", "a", "ab", "b", "ā"])
    );
    assert_eq!(sorted_unique(vec![]), Vec::<String>::new());
    let mut expected = strings(&["ṃ", "k", "kh", "a", "k", "z", "A"]);
    expected.sort();
    expected.dedup();
    assert_eq!(sorted_unique(strings(&["ṃ", "k", "kh", "a", "k", "z", "A"])), expected);
}

#[test]
fn add_inflections_counts_a_word_without_forms() {
    let mut ibi = InflectionsBatchInfo {
        inflection_infos: vec![info(1, "x")],
        inflected_forms_fetched: 4,
    };
    add_inflections(&mut ibi, 2, vec![]);
    assert_eq!(ibi.inflected_forms_fetched, 5);
    assert_eq!(ibi.inflection_infos, vec![info(1, "x")]);
    add_inflections(&mut ibi, 3, strings(&["b", "a", "b"]));
    assert_eq!(ibi.inflected_forms_fetched, 5);
    assert_eq!(ibi.inflection_infos, vec![info(1, "x"), info(3, "a"), info(3, "b")]);
}

#[test]
fn create_inflection_infos_with_a_generator_that_makes_nothing() {
    let stems = vec![
        StemInfo {
            row_id: 1,
            pali1: "a 1".to_string(),
        },
        StemInfo {
            row_id: 2,
            pali1: "a 2".to_string(),
        },
    ];
    let batch = create_inflection_infos(stems, &NullInflectionGenerator::new());
    assert_eq!(batch.inflection_infos, vec![]);
    assert_eq!(batch.inflected_forms_fetched, 2);
}

#[test]
fn create_inflection_sql_queries_of_an_empty_batch() {
    let batch = create_inflection_sql_queries(InflectionsBatchInfo {
        inflection_infos: vec![],
        inflected_forms_fetched: 0,
    });
    assert_eq!(batch.inflection_sql_queries, strings(&["BEGIN", "END"]));
    assert_eq!(batch.inflected_forms_fetched, 0);
    let batch = create_inflection_sql_queries(InflectionsBatchInfo {
        inflection_infos: vec![info(-3, "ā")],
        inflected_forms_fetched: 1,
    });
    assert_eq!(
        batch.inflection_sql_queries[1],
        "INSERT INTO _all_words (inflection, stem_id) VALUES ('ā', -3)"
    );
}
