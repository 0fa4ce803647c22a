use crate::alphabet::laws::{law_text_order_antisymmetric, law_text_order_transitive};
use crate::alphabet::{string_compare, text_order};
use crate::inflections::host::{exec_sql_query, tables_of_reply, PlsInflectionsHost};
use crate::inflections::pmd::{
    get_pali1_metadata, metadata_from_replies, metadata_view, replies_fit, tables_view,
    MetadataReplies, Pali1MetadataView, Tables, WordType, WordTypeView,
};
use crate::text::{replace_char, replace_char_seq, split_on, split_seq, str_eq};
use vstd::prelude::*;
use vstd::seq_lib::{to_multiset_build, to_multiset_insert};

pub mod generators;
pub mod host;
pub mod pmd;

verus! {

/// No text of the sequence sorts after one that follows it.
pub open spec fn in_dictionary_order(words: Seq<Seq<char>>) -> bool {
    forall|i: int, j: int| 0 <= i < j < words.len() ==> text_order(words[i], words[j]) <= 0
}

/// The same texts in dictionary order.
pub fn sort_in_dictionary_order(words: Vec<String>) -> (r: Vec<String>)
    ensures
        in_dictionary_order(r.deep_view()),
        r.deep_view().to_multiset() == words.deep_view().to_multiset(),
{
    let ghost all = words.deep_view();
    let mut out: Vec<String> = Vec::new();
    let mut k: usize = 0;
    assert(out.deep_view() =~= all.take(0));
    while k < words.len()
        invariant
            0 <= k <= words.len(),
            all == words.deep_view(),
            in_dictionary_order(out.deep_view()),
            out.deep_view().to_multiset() == all.take(k as int).to_multiset(),
        decreases words.len() - k,
    {
        let word = words[k].clone();
        let ghost sorted = out.deep_view();
        let mut p: usize = 0;
        while p < out.len() && string_compare(word.as_str(), out[p].as_str()) >= 0
            invariant
                0 <= p <= out.len(),
                sorted == out.deep_view(),
                forall|i: int| 0 <= i < p ==> text_order(sorted[i], word@) <= 0,
            decreases out.len() - p,
        {
            proof {
                law_text_order_antisymmetric(word@, sorted[p as int]);
            }
            p = p + 1;
        }
        out.insert(p, word);
        proof {
            let next = out.deep_view();
            assert(next =~= sorted.insert(p as int, word@));
            assert forall|i: int, j: int| 0 <= i < j < next.len() implies text_order(
                next[i],
                next[j],
            ) <= 0 by {
                if j == p {
                } else if i == p {
                    // the word sorts before the text that stopped the search,
                    // and that text before all that follow it
                    let stop = sorted[p as int];
                    let after = sorted[j - 1];
                    if j - 1 > p {
                        law_text_order_antisymmetric(stop, after);
                        if text_order(stop, after) < 0 {
                            law_text_order_transitive(word@, stop, after);
                        }
                    }
                } else {
                    let a = if i < p {
                        i
                    } else {
                        i - 1
                    };
                    let b = if j < p {
                        j
                    } else {
                        j - 1
                    };
                    assert(text_order(sorted[a], sorted[b]) <= 0);
                }
            }
            to_multiset_insert(sorted, p as int, word@);
            assert(all.take(k + 1) =~= all.take(k as int).push(word@));
            to_multiset_build(all.take(k as int), word@);
        }
        k = k + 1;
    }
    assert(all.take(k as int) =~= all);
    out
}

/// The name of the table that holds a pattern's forms: the pattern with an
/// underscore for each blank.
pub fn get_table_name_from_pattern(pattern: &str) -> (r: String)
    ensures
        r@ == table_name(pattern@),
{
    replace_char(pattern, ' ', '_')
}

/// The name of the table that holds a pattern's forms.
pub open spec fn table_name(pattern: Seq<char>) -> Seq<char> {
    replace_char_seq(pattern, ' ', '_')
}

/// The query for all rows of a table of forms.
pub open spec fn suffixes_query(table: Seq<char>) -> Seq<char> {
    "Select * from "@ + table
}

/// The message for a table of forms that is missing or has a row without
/// cells.
pub open spec fn no_pattern_message(table: Seq<char>) -> Seq<char> {
    "No pattern found for "@ + table
}

/// The words that the rows of a table of forms give for a stem: the last
/// cell of each row lists endings between commas, and each ending is joined
/// to the stem.
pub open spec fn words_of_rows(stem: Seq<char>, rows: Seq<Seq<Seq<char>>>) -> Seq<Seq<char>>
    decreases rows.len(),
{
    if rows.len() == 0 {
        Seq::empty()
    } else {
        words_of_rows(stem, rows.drop_last()) + join_each(stem, split_seq(rows.last().last(), ','))
    }
}

/// Each ending joined to the stem.
pub open spec fn join_each(stem: Seq<char>, endings: Seq<Seq<char>>) -> Seq<Seq<char>> {
    endings.map_values(|ending: Seq<char>| stem + ending)
}

/// The words that a reply on a table of forms gives for a stem. The forms
/// are in the last table of the reply.
pub open spec fn inflections_in_reply(stem: Seq<char>, table: Seq<char>, reply: Tables) -> Result<
    Seq<Seq<char>>,
    Seq<char>,
> {
    match reply {
        Err(e) => Err(e),
        Ok(tables) => if tables.len() == 0 || exists|i: int|
            0 <= i < tables.last().len() && (#[trigger] tables.last()[i]).len() == 0 {
            Err(no_pattern_message(table))
        } else {
            Ok(words_of_rows(stem, tables.last()))
        },
    }
}

/// Words or a message as a value of the specification.
pub open spec fn words_view(r: Result<Vec<String>, String>) -> Result<Seq<Seq<char>>, Seq<char>> {
    match r {
        Ok(words) => Ok(words.deep_view()),
        Err(e) => Err(e@),
    }
}

/// Reads the words that a reply on a table of forms gives for a stem.
pub fn read_inflections(
    stem: &str,
    table: &str,
    reply: Result<Vec<Vec<Vec<String>>>, String>,
) -> (r: Result<Vec<String>, String>)
    ensures
        words_view(r) == inflections_in_reply(stem@, table@, tables_view(reply)),
{
    let tables = match reply {
        Ok(tables) => tables,
        Err(e) => {
            return Err(e);
        },
    };
    if tables.len() == 0 {
        let mut message = "No pattern found for ".to_owned();
        message.append(table);
        return Err(message);
    }
    let rows = &tables[tables.len() - 1];
    let ghost all = tables.deep_view().last();
    assert(all == rows.deep_view());
    let mut inflections: Vec<String> = Vec::new();
    let mut i: usize = 0;
    assert(all.take(0) =~= Seq::<Seq<Seq<char>>>::empty());
    assert(inflections.deep_view() =~= words_of_rows(stem@, all.take(0)));
    while i < rows.len()
        invariant
            0 <= i <= rows.len(),
            all == rows.deep_view(),
            all == tables.deep_view().last(),
            tables.len() > 0,
            tables_view(reply) == Ok::<Seq<Seq<Seq<Seq<char>>>>, Seq<char>>(tables.deep_view()),
            forall|j: int| 0 <= j < i ==> (#[trigger] all[j]).len() > 0,
            inflections.deep_view() == words_of_rows(stem@, all.take(i as int)),
        decreases rows.len() - i,
    {
        let row = &rows[i];
        assert(all[i as int] == row.deep_view());
        if row.len() == 0 {
            proof {
                let last = tables.deep_view().last();
                assert(0 <= i < last.len() && last[i as int].len() == 0);
            }
            let mut message = "No pattern found for ".to_owned();
            message.append(table);
            return Err(message);
        }
        let endings = split_on(row[row.len() - 1].as_str(), ',');
        let ghost before = inflections.deep_view();
        let ghost pieces = endings.deep_view();
        assert(row.deep_view().last() == row[row.len() - 1]@);
        let mut e: usize = 0;
        while e < endings.len()
            invariant
                0 <= e <= endings.len(),
                pieces == endings.deep_view(),
                inflections.deep_view() == before + join_each(stem@, pieces.take(e as int)),
            decreases endings.len() - e,
        {
            let mut word = stem.to_owned();
            word.append(endings[e].as_str());
            let ghost so_far = inflections.deep_view();
            inflections.push(word);
            proof {
                assert(inflections.deep_view() =~= so_far.push(word@));
                assert(pieces[e as int] == endings[e as int]@);
                assert(join_each(stem@, pieces.take(e + 1)) =~= join_each(
                    stem@,
                    pieces.take(e as int),
                ).push(stem@ + pieces[e as int]));
                assert(inflections.deep_view() =~= before + join_each(stem@, pieces.take(e + 1)));
            }
            e = e + 1;
        }
        proof {
            assert(pieces.take(e as int) =~= pieces);
            assert(all.take(i + 1).drop_last() =~= all.take(i as int));
            assert(all.take(i + 1).last() == all[i as int]);
        }
        i = i + 1;
    }
    assert(all.take(i as int) =~= all);
    Ok(inflections)
}

/// Writes the query for all rows of a table of forms.
pub fn write_suffixes_query(table: &str) -> (r: String)
    ensures
        r@ == suffixes_query(table@),
{
    let mut sql = "Select * from ".to_owned();
    sql.append(table);
    sql
}

/// Asks the host's database for all rows of a table of forms: the tables
/// that the host's reply holds, or the message that came in their place.
fn get_inflection_suffixes_for_pattern<H: PlsInflectionsHost>(pattern: &str, host: &H) -> (r:
    Result<Vec<Vec<Vec<String>>>, String>)
    ensures
        exists|reply: Result<String, String>| tables_view(r) == #[trigger] tables_of_reply(reply),
{
    let sql = write_suffixes_query(pattern);
    let r = exec_sql_query(host, sql.as_str());
    proof {
        let reply = choose|reply: Result<String, String>|
            match r {
                Ok(tables) => #[trigger] tables_of_reply(reply) == Ok::<
                    Seq<Seq<Seq<Seq<char>>>>,
                    Seq<char>,
                >(tables.deep_view()),
                Err(e) => tables_of_reply(reply) == Err::<Seq<Seq<Seq<Seq<char>>>>, Seq<char>>(
                    e@,
                ),
            };
        assert(tables_view(r) == tables_of_reply(reply));
    }
    r
}

fn get_all_inflections_for_irregulars<H: PlsInflectionsHost>(pattern: &str, host: &H) -> (r:
    Result<Vec<String>, String>)
    ensures
        exists|reply: Tables|
            words_view(r) == #[trigger] inflections_in_reply(Seq::empty(), pattern@, reply),
{
    let reply = get_inflection_suffixes_for_pattern(pattern, host);
    let empty = String::new();
    let r = read_inflections(empty.as_str(), pattern, reply);
    assert(words_view(r) == inflections_in_reply(Seq::empty(), pattern@, tables_view(reply)));
    r
}

fn get_all_inflections_for_regulars<H: PlsInflectionsHost>(
    stem: &str,
    pattern: &str,
    host: &H,
) -> (r: Result<Vec<String>, String>)
    ensures
        exists|reply: Tables| words_view(r) == #[trigger] inflections_in_reply(stem@, pattern@, reply),
{
    let reply = get_inflection_suffixes_for_pattern(pattern, host);
    let r = read_inflections(stem, pattern, reply);
    assert(words_view(r) == inflections_in_reply(stem@, pattern@, tables_view(reply)));
    r
}

/// All the forms of a word, given what is known of the word and what the
/// database replied on its table of forms: none for an inflected form, the
/// stem alone for an indeclinable, and for the others the endings of the
/// pattern's table, joined to the stem of a declinable and as they stand for
/// an irregular word.
pub open spec fn all_inflections(
    metadata: Result<Pali1MetadataView, Seq<char>>,
    forms_reply: Tables,
) -> Result<Seq<Seq<char>>, Seq<char>> {
    match metadata {
        Err(e) => Err(e),
        Ok(pm) => match pm.word_type {
            WordTypeView::InflectedForm { stems } => Ok(Seq::empty()),
            WordTypeView::Indeclinable { stem } => Ok(seq![stem]),
            WordTypeView::Irregular { pattern, inflection_class } => inflections_in_reply(
                Seq::empty(),
                table_name(pattern),
                forms_reply,
            ),
            WordTypeView::Declinable { stem, pattern, inflection_class } => inflections_in_reply(
                stem,
                table_name(pattern),
                forms_reply,
            ),
        },
    }
}

/// All the forms of a head word, as the database of the host gives them.
pub fn generate_all_inflections<H: PlsInflectionsHost>(pali1: &str, host: &H) -> (r: Result<
    Vec<String>,
    String,
>)
    ensures
        exists|replies: MetadataReplies, forms_reply: Tables|
            replies_fit(pali1@, replies) && words_view(r) == #[trigger] all_inflections(
                metadata_from_replies(pali1@, replies),
                forms_reply,
            ),
{
    let ghost none: Tables = Err(Seq::empty());
    let found = get_pali1_metadata(pali1, host);
    let ghost replies = choose|replies: MetadataReplies|
        replies_fit(pali1@, replies) && metadata_view(found) == #[trigger] metadata_from_replies(
            pali1@,
            replies,
        );
    let ghost metadata = metadata_from_replies(pali1@, replies);
    let pm = match found {
        Ok(pm) => pm,
        Err(e) => {
            let r = Err(e);
            assert(words_view(r) == all_inflections(metadata, none));
            return r;
        },
    };
    match pm.word_type {
        WordType::InflectedForm { stems } => {
            let r = Ok(Vec::new());
            assert(words_view(r)->Ok_0 =~= Seq::<Seq<char>>::empty());
            assert(words_view(r) == all_inflections(metadata, none));
            r
        },
        WordType::Indeclinable { stem } => {
            let mut words: Vec<String> = Vec::new();
            words.push(stem);
            let r = Ok(words);
            assert(words_view(r)->Ok_0 =~= seq![stem@]);
            assert(words_view(r) == all_inflections(metadata, none));
            r
        },
        WordType::Irregular { pattern, inflection_class } => {
            let table = get_table_name_from_pattern(pattern.as_str());
            let r = get_all_inflections_for_irregulars(table.as_str(), host);
            let ghost forms_reply = choose|reply: Tables|
                words_view(r) == #[trigger] inflections_in_reply(Seq::empty(), table@, reply);
            assert(words_view(r) == all_inflections(metadata, forms_reply));
            r
        },
        WordType::Declinable { stem, pattern, inflection_class } => {
            let table = get_table_name_from_pattern(pattern.as_str());
            let r = get_all_inflections_for_regulars(stem.as_str(), table.as_str(), host);
            let ghost forms_reply = choose|reply: Tables|
                words_view(r) == #[trigger] inflections_in_reply(stem@, table@, reply);
            assert(words_view(r) == all_inflections(metadata, forms_reply));
            r
        },
    }
}

/// The text of a reply that holds one table of one row of one cell; the
/// empty text for any other tables, and the message of a reply that is one.
pub open spec fn single_cell(reply: Tables) -> Seq<char> {
    match reply {
        Ok(tables) => if tables.len() == 1 && tables[0].len() == 1 && tables[0][0].len() == 1 {
            tables[0][0][0]
        } else {
            Seq::empty()
        },
        Err(e) => e,
    }
}

/// Reads the one cell of a reply.
pub fn read_single_cell(reply: Result<Vec<Vec<Vec<String>>>, String>) -> (r: String)
    ensures
        r@ == single_cell(tables_view(reply)),
{
    match reply {
        Ok(tables) => {
            if tables.len() == 1 && tables[0].len() == 1 && tables[0][0].len() == 1 {
                assert(tables.deep_view()[0][0][0] == tables[0][0][0]@);
                tables[0][0][0].clone()
            } else {
                assert(tables.deep_view().len() == tables.len());
                if tables.len() == 1 {
                    assert(tables.deep_view()[0].len() == tables[0].len());
                    if tables[0].len() == 1 {
                        assert(tables.deep_view()[0][0].len() == tables[0][0].len());
                    }
                }
                String::new()
            }
        },
        Err(e) => e,
    }
}

fn join_and_transliterate_if_not_empty<H: PlsInflectionsHost>(
    stem: &str,
    suffix: &str,
    host: &H,
) -> (r: String)
    ensures
        suffix@.len() == 0 ==> r@.len() == 0,
{
    if suffix.is_empty() {
        String::new()
    } else {
        let mut word = stem.to_owned();
        word.append(suffix);
        match host.transliterate(word.as_str()) {
            Ok(shown) => shown,
            Err(e) => e,
        }
    }
}

/// `shown` holds one text for each ending, and the empty text for each empty
/// ending.
pub open spec fn shown_for(endings: Seq<Seq<char>>, shown: Seq<Seq<char>>) -> bool {
    &&& shown.len() == endings.len()
    &&& forall|i: int| 0 <= i < endings.len() && endings[i].len() == 0 ==> (#[trigger] shown[i]).len()
        == 0
}

/// Forms as a host shows them for the endings of a reply, in dictionary
/// order: the reply holds the endings in one cell, between commas; there is
/// one form for each ending, and the empty form for an empty ending.
pub open spec fn shown_in_order(forms: Seq<Seq<char>>) -> bool {
    &&& in_dictionary_order(forms)
    &&& exists|reply: Tables, shown: Seq<Seq<char>>| #[trigger]
        shown_for(split_seq(single_cell(reply), ','), shown) && forms.to_multiset()
            == shown.to_multiset()
}

/// The forms that a query on a table of forms gives for a stem, as the host
/// shows them, in dictionary order. The reply holds the endings in one cell,
/// between commas; the host's transliterator is asked for each stem and
/// ending joined, and its answer stands for the form, whatever it is. An
/// empty ending gives an empty form.
pub fn get_inflections<H: PlsInflectionsHost>(stem: &str, sql: &str, host: &H) -> (r: Vec<String>)
    ensures
        shown_in_order(r.deep_view()),
{
    let reply = exec_sql_query(host, sql);
    let res = read_single_cell(reply);
    let endings = split_on(res.as_str(), ',');
    let mut inflections: Vec<String> = Vec::new();
    let mut i: usize = 0;
    while i < endings.len()
        invariant
            0 <= i <= endings.len(),
            inflections.len() == i,
            forall|j: int|
                0 <= j < i && endings[j]@.len() == 0 ==> (#[trigger] inflections[j])@.len() == 0,
        decreases endings.len() - i,
    {
        let form = join_and_transliterate_if_not_empty(stem, endings[i].as_str(), host);
        inflections.push(form);
        i = i + 1;
    }
    let ghost shown = inflections.deep_view();
    proof {
        let pieces = split_seq(single_cell(tables_view(reply)), ',');
        assert(pieces == endings.deep_view());
        assert forall|j: int| 0 <= j < pieces.len() && pieces[j].len() == 0 implies (
        #[trigger] shown[j]).len() == 0 by {
            assert(pieces[j] == endings[j]@);
            assert(shown[j] == inflections[j]@);
        }
        assert(shown_for(pieces, shown));
    }
    let r = sort_in_dictionary_order(inflections);
    assert(shown_in_order(r.deep_view()));
    r
}

/// The message for a reply that holds no cell where one is needed.
pub open spec fn no_scalar_message() -> Seq<char> {
    "sql query did not return a scalar"@
}

/// Whether a reply on a count says that nothing was counted: its first cell
/// holds `0`.
pub open spec fn counts_nothing(reply: Tables) -> Result<bool, Seq<char>> {
    match reply {
        Err(e) => Err(e),
        Ok(tables) => if tables.len() >= 1 && tables[0].len() >= 1 && tables[0][0].len() >= 1 {
            Ok(tables[0][0][0] == "0"@)
        } else {
            Err(no_scalar_message())
        },
    }
}

/// What a run of replies on counts says, one flag for each reply: whether
/// something was counted. The first message among the replies stands for
/// the run.
pub open spec fn counted(replies: Seq<Tables>) -> Result<Seq<bool>, Seq<char>>
    decreases replies.len(),
{
    if replies.len() == 0 {
        Ok(Seq::empty())
    } else {
        match counted(replies.drop_last()) {
            Err(e) => Err(e),
            Ok(flags) => match counts_nothing(replies.last()) {
                Err(e) => Err(e),
                Ok(nothing) => Ok(flags.push(!nothing)),
            },
        }
    }
}

/// A truth value or a message as a value of the specification.
pub open spec fn flag_view(r: Result<bool, String>) -> Result<bool, Seq<char>> {
    match r {
        Ok(flag) => Ok(flag),
        Err(e) => Err(e@),
    }
}

/// Reads a reply on a count and says whether nothing was counted.
pub fn read_no_results(reply: Result<Vec<Vec<Vec<String>>>, String>) -> (r: Result<bool, String>)
    ensures
        flag_view(r) == counts_nothing(tables_view(reply)),
{
    let tables = match reply {
        Ok(tables) => tables,
        Err(e) => {
            return Err(e);
        },
    };
    if tables.len() >= 1 && tables[0].len() >= 1 && tables[0][0].len() >= 1 {
        assert(tables.deep_view()[0][0][0] == tables[0][0][0]@);
        Ok(str_eq(tables[0][0][0].as_str(), "0"))
    } else {
        assert(tables.deep_view().len() == tables.len());
        if tables.len() >= 1 {
            assert(tables.deep_view()[0].len() == tables[0].len());
            if tables[0].len() >= 1 {
                assert(tables.deep_view()[0][0].len() == tables[0][0].len());
            }
        }
        Err("sql query did not return a scalar".to_owned())
    }
}

/// Asks the host's database to count and says whether nothing was counted.
pub fn query_has_no_results<H: PlsInflectionsHost>(query: &str, host: &H) -> (r: Result<
    bool,
    String,
>)
    ensures
        exists|reply: Tables| flag_view(r) == #[trigger] counts_nothing(reply),
{
    let reply = exec_sql_query(host, query);
    let r = read_no_results(reply);
    assert(flag_view(r) == counts_nothing(tables_view(reply)));
    r
}

/// The query for the abbreviations of the grammar in a locale: under the
/// locale `xx` each abbreviation is shown marked, under `en` as it stands,
/// and under any other by the column that the locale names.
pub open spec fn abbreviations_query(locale: Seq<char>) -> Seq<char> {
    if locale == "xx"@ {
        "select name, description, '^' || name || '$' from _abbreviations"@
    } else if locale == "en"@ {
        "select name, description, name from _abbreviations"@
    } else {
        "select name, description, "@ + locale + " from _abbreviations"@
    }
}

/// Writes the query for the abbreviations of the grammar in a locale.
pub fn write_abbreviations_query(locale: &str) -> (r: String)
    ensures
        r@ == abbreviations_query(locale@),
{
    if str_eq(locale, "xx") {
        "select name, description, '^' || name || '$' from _abbreviations".to_owned()
    } else if str_eq(locale, "en") {
        "select name, description, name from _abbreviations".to_owned()
    } else {
        let mut sql = "select name, description, ".to_owned();
        sql.append(locale);
        sql.append(" from _abbreviations");
        sql
    }
}

/// The message for a reply on the abbreviations that has no table, or a row
/// with fewer than three cells.
pub open spec fn no_abbreviations_message() -> Seq<char> {
    "sql query did not return the abbreviations"@
}

/// The entries that the rows of the table of abbreviations give: two for
/// each row, one under the abbreviation and one under its description, both
/// with the text that is shown for it.
pub open spec fn entries_of_rows(rows: Seq<Seq<Seq<char>>>) -> Seq<(Seq<char>, Seq<char>)>
    decreases rows.len(),
{
    if rows.len() == 0 {
        Seq::empty()
    } else {
        let row = rows.last();
        entries_of_rows(rows.drop_last()).push((row[0], row[2])).push((row[1], row[2]))
    }
}

/// The entries that a reply on the abbreviations gives, in the order of its
/// rows.
pub open spec fn abbreviations_in_reply(reply: Tables) -> Result<
    Seq<(Seq<char>, Seq<char>)>,
    Seq<char>,
> {
    match reply {
        Err(e) => Err(e),
        Ok(tables) => if tables.len() == 0 || exists|i: int|
            0 <= i < tables[0].len() && (#[trigger] tables[0][i]).len() < 3 {
            Err(no_abbreviations_message())
        } else {
            Ok(entries_of_rows(tables[0]))
        },
    }
}

/// The texts of a list of entries.
pub open spec fn entries_deep_view(entries: Seq<(String, String)>) -> Seq<(Seq<char>, Seq<char>)> {
    entries.map_values(|entry: (String, String)| (entry.0@, entry.1@))
}

/// Entries or a message as a value of the specification.
pub open spec fn entries_view(r: Result<Vec<(String, String)>, String>) -> Result<
    Seq<(Seq<char>, Seq<char>)>,
    Seq<char>,
> {
    match r {
        Ok(entries) => Ok(entries_deep_view(entries@)),
        Err(e) => Err(e@),
    }
}

/// Entries, or a message, that some reply of a host on the abbreviations
/// gives.
pub open spec fn abbreviations_by_host(r: Result<Vec<(String, String)>, String>) -> bool {
    exists|reply: Tables| entries_view(r) == #[trigger] abbreviations_in_reply(reply)
}

/// Reads the entries that a reply on the abbreviations gives. Where two
/// entries have the same key, the later one is meant to count.
pub fn read_abbreviations(reply: Result<Vec<Vec<Vec<String>>>, String>) -> (r: Result<
    Vec<(String, String)>,
    String,
>)
    ensures
        entries_view(r) == abbreviations_in_reply(tables_view(reply)),
{
    let tables = match reply {
        Ok(tables) => tables,
        Err(e) => {
            return Err(e);
        },
    };
    if tables.len() == 0 {
        return Err("sql query did not return the abbreviations".to_owned());
    }
    let rows = &tables[0];
    let ghost all = tables.deep_view()[0];
    assert(all == rows.deep_view());
    let mut entries: Vec<(String, String)> = Vec::new();
    let mut i: usize = 0;
    assert(all.take(0) =~= Seq::<Seq<Seq<char>>>::empty());
    assert(entries_deep_view(entries@) =~= entries_of_rows(all.take(0)));
    while i < rows.len()
        invariant
            0 <= i <= rows.len(),
            all == rows.deep_view(),
            all == tables.deep_view()[0],
            tables.len() > 0,
            tables_view(reply) == Ok::<Seq<Seq<Seq<Seq<char>>>>, Seq<char>>(tables.deep_view()),
            forall|j: int| 0 <= j < i ==> (#[trigger] all[j]).len() >= 3,
            entries_deep_view(entries@) == entries_of_rows(all.take(i as int)),
        decreases rows.len() - i,
    {
        let row = &rows[i];
        assert(all[i as int] == row.deep_view());
        if row.len() < 3 {
            proof {
                let first = tables.deep_view()[0];
                assert(0 <= i < first.len() && first[i as int].len() < 3);
            }
            return Err("sql query did not return the abbreviations".to_owned());
        }
        let ghost so_far = entries_deep_view(entries@);
        entries.push((row[0].clone(), row[2].clone()));
        entries.push((row[1].clone(), row[2].clone()));
        proof {
            assert(row.deep_view()[0] == row[0]@);
            assert(row.deep_view()[1] == row[1]@);
            assert(row.deep_view()[2] == row[2]@);
            assert(entries_deep_view(entries@) =~= so_far.push((row[0]@, row[2]@)).push(
                (row[1]@, row[2]@),
            ));
            assert(all.take(i + 1).drop_last() =~= all.take(i as int));
            assert(all.take(i + 1).last() == all[i as int]);
        }
        i = i + 1;
    }
    assert(all.take(i as int) =~= all);
    Ok(entries)
}

/// The abbreviations of the grammar as the host's locale shows them: a list
/// of entries, each a key and the text shown for it.
pub fn get_abbreviations_for_locale<H: PlsInflectionsHost>(host: &H) -> (r: Result<
    Vec<(String, String)>,
    String,
>)
    ensures
        abbreviations_by_host(r),
{
    let locale = host.get_locale();
    let sql = write_abbreviations_query(locale.as_str());
    let reply = exec_sql_query(host, sql.as_str());
    let r = read_abbreviations(reply);
    assert(entries_view(r) == abbreviations_in_reply(tables_view(reply)));
    r
}

} // verus!
