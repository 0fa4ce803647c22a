use crate::inflections::host::{exec_sql_query, PlsInflectionsHost};
use crate::inflections::pmd::{
    feedback_url, get_feedback_url_for_inflection_class, tables_view, InflectionClass,
    Pali1Metadata, Pali1MetadataView, Tables, WordType, WordTypeView,
};
use crate::inflections::{
    abbreviations_by_host, counted, counts_nothing, flag_view, get_abbreviations_for_locale,
    get_inflections, get_table_name_from_pattern, query_has_no_results, shown_in_order,
};
use vstd::prelude::*;

verus! {

/// The queries for the values that the tables of verbs are laid out by:
/// tenses, persons, voices and numbers.
pub const CONJUGATION_VALUES_QUERY: &'static str =
    r#"
        select * from _tense_values where name <> "";
        select * from _person_values where name <> "";
        select * from _actreflx_values where name <> "";
        select * from _number_values where name <> "" and name <> "dual";
    "#;

/// The queries for the values that the tables of nouns are laid out by:
/// cases, genders and numbers.
pub const DECLENSION_VALUES_QUERY: &'static str =
    r#"
        select * from _case_values where name <> "";
        select * from _gender_values where name <> "";
        select * from _number_values where name <> "" and name <> "dual";
    "#;

/// The queries for the values that the tables of the personal pronouns are
/// laid out by: cases and numbers.
pub const PRONOUN_VALUES_QUERY: &'static str =
    r#"
        select * from _case_values where name <> "" and name <> "voc";
        select * from _number_values where name <> "" and name <> "dual";
    "#;

/// The query for the cases that the table of the dual pronouns is laid out
/// by.
pub const DUAL_PRONOUN_VALUES_QUERY: &'static str =
    r#"select * from _case_values where name <> "" and name <> "voc""#;

/// The message for a reply that lacks a table of values.
pub open spec fn no_values_message() -> Seq<char> {
    "sql query did not return the values"@
}

/// The cells of a table, row after row.
pub open spec fn cells_of(rows: Seq<Seq<Seq<char>>>) -> Seq<Seq<char>>
    decreases rows.len(),
{
    if rows.len() == 0 {
        Seq::empty()
    } else {
        cells_of(rows.drop_last()) + rows.last()
    }
}

/// The cells of a table, row after row.
pub fn flatten(rows: &Vec<Vec<String>>) -> (r: Vec<String>)
    ensures
        r.deep_view() == cells_of(rows.deep_view()),
{
    let ghost all = rows.deep_view();
    let mut cells: Vec<String> = Vec::new();
    let mut i: usize = 0;
    assert(all.take(0) =~= Seq::<Seq<Seq<char>>>::empty());
    assert(cells.deep_view() =~= cells_of(all.take(0)));
    while i < rows.len()
        invariant
            0 <= i <= rows.len(),
            all == rows.deep_view(),
            cells.deep_view() == cells_of(all.take(i as int)),
        decreases rows.len() - i,
    {
        let row = &rows[i];
        let ghost before = cells.deep_view();
        let ghost these = row.deep_view();
        let mut c: usize = 0;
        assert(before + these.take(0) =~= before);
        while c < row.len()
            invariant
                0 <= c <= row.len(),
                these == row.deep_view(),
                cells.deep_view() == before + these.take(c as int),
            decreases row.len() - c,
        {
            let ghost so_far = cells.deep_view();
            cells.push(row[c].clone());
            proof {
                assert(cells.deep_view() =~= so_far.push(row[c as int]@));
                assert(these[c as int] == row[c as int]@);
                assert(these.take(c + 1) =~= these.take(c as int).push(these[c as int]));
                assert(cells.deep_view() =~= before + these.take(c + 1));
            }
            c = c + 1;
        }
        proof {
            assert(these.take(c as int) =~= these);
            assert(all[i as int] == these);
            assert(all.take(i + 1).drop_last() =~= all.take(i as int));
            assert(all.take(i + 1).last() == all[i as int]);
        }
        i = i + 1;
    }
    assert(all.take(i as int) =~= all);
    cells
}

/// The query that counts the forms of a tense in a table of verbs.
pub open spec fn tense_count_query(table: Seq<char>, tense: Seq<char>) -> Seq<char> {
    "select cast(count(*) as text) from "@ + table + " where tense = \""@ + tense + "\""@
}

/// The query that counts the forms of a tense and a voice in a table of
/// verbs.
pub open spec fn voice_count_query(table: Seq<char>, tense: Seq<char>, voice: Seq<char>) -> Seq<
    char,
> {
    "select cast(count(*) as text) from '"@ + table + "' where tense = \""@ + tense
        + "\" and actreflx = \""@ + voice + "\""@
}

/// The query for the forms of a verb in a tense, a person, a voice and a
/// number.
pub open spec fn conjugation_query(
    table: Seq<char>,
    tense: Seq<char>,
    person: Seq<char>,
    voice: Seq<char>,
    number: Seq<char>,
) -> Seq<char> {
    "SELECT inflections FROM '"@ + table + "' WHERE tense = '"@ + tense + "' AND person = '"@
        + person + "' AND actreflx = '"@ + voice + "' AND \"number\" = '"@ + number + "'"@
}

/// The query that counts the forms of a gender in a table of nouns.
pub open spec fn gender_count_query(table: Seq<char>, gender: Seq<char>) -> Seq<char> {
    "select cast(count(*) as text) from '"@ + table + "' where gender = \""@ + gender + "\""@
}

/// The query for the forms of a noun in a case, a gender and a number.
pub open spec fn declension_query(
    table: Seq<char>,
    case: Seq<char>,
    gender: Seq<char>,
    number: Seq<char>,
) -> Seq<char> {
    "SELECT inflections FROM '"@ + table + "' WHERE \"case\" = '"@ + case + "' AND gender = '"@
        + gender + "' AND \"number\" = '"@ + number + "'"@
}

/// The query for the forms of a pronoun of a class in a case and a number.
pub open spec fn pronoun_query(
    table: Seq<char>,
    case: Seq<char>,
    class: Seq<char>,
    number: Seq<char>,
) -> Seq<char> {
    "SELECT inflections FROM '"@ + table + "' WHERE \"case\" = '"@ + case
        + "' AND special_pron_class = '"@ + class + "' AND \"number\" = '"@ + number + "'"@
}

/// Writes the query that counts the forms of a tense in a table of verbs.
pub fn write_tense_count_query(table: &str, tense: &str) -> (r: String)
    ensures
        r@ == tense_count_query(table@, tense@),
{
    let mut sql = "select cast(count(*) as text) from ".to_owned();
    sql.append(table);
    sql.append(" where tense = \"");
    sql.append(tense);
    sql.append("\"");
    sql
}

/// Writes the query that counts the forms of a tense and a voice in a table
/// of verbs.
pub fn write_voice_count_query(table: &str, tense: &str, voice: &str) -> (r: String)
    ensures
        r@ == voice_count_query(table@, tense@, voice@),
{
    let mut sql = "select cast(count(*) as text) from '".to_owned();
    sql.append(table);
    sql.append("' where tense = \"");
    sql.append(tense);
    sql.append("\" and actreflx = \"");
    sql.append(voice);
    sql.append("\"");
    sql
}

/// Writes the query for the forms of a verb in a tense, a person, a voice
/// and a number.
pub fn write_conjugation_query(
    table: &str,
    tense: &str,
    person: &str,
    voice: &str,
    number: &str,
) -> (r: String)
    ensures
        r@ == conjugation_query(table@, tense@, person@, voice@, number@),
{
    let mut sql = "SELECT inflections FROM '".to_owned();
    sql.append(table);
    sql.append("' WHERE tense = '");
    sql.append(tense);
    sql.append("' AND person = '");
    sql.append(person);
    sql.append("' AND actreflx = '");
    sql.append(voice);
    sql.append("' AND \"number\" = '");
    sql.append(number);
    sql.append("'");
    sql
}

/// Writes the query that counts the forms of a gender in a table of nouns.
pub fn write_gender_count_query(table: &str, gender: &str) -> (r: String)
    ensures
        r@ == gender_count_query(table@, gender@),
{
    let mut sql = "select cast(count(*) as text) from '".to_owned();
    sql.append(table);
    sql.append("' where gender = \"");
    sql.append(gender);
    sql.append("\"");
    sql
}

/// Writes the query for the forms of a noun in a case, a gender and a
/// number.
pub fn write_declension_query(table: &str, case: &str, gender: &str, number: &str) -> (r: String)
    ensures
        r@ == declension_query(table@, case@, gender@, number@),
{
    let mut sql = "SELECT inflections FROM '".to_owned();
    sql.append(table);
    sql.append("' WHERE \"case\" = '");
    sql.append(case);
    sql.append("' AND gender = '");
    sql.append(gender);
    sql.append("' AND \"number\" = '");
    sql.append(number);
    sql.append("'");
    sql
}

/// Writes the query for the forms of a pronoun of a class in a case and a
/// number.
pub fn write_pronoun_query(table: &str, case: &str, class: &str, number: &str) -> (r: String)
    ensures
        r@ == pronoun_query(table@, case@, class@, number@),
{
    let mut sql = "SELECT inflections FROM '".to_owned();
    sql.append(table);
    sql.append("' WHERE \"case\" = '");
    sql.append(case);
    sql.append("' AND special_pron_class = '");
    sql.append(class);
    sql.append("' AND \"number\" = '");
    sql.append(number);
    sql.append("'");
    sql
}

/// The forms of a verb in one tense: a list of forms for each person, voice
/// and number, and for each voice whether the tense has forms in it.
#[derive(Debug, Clone, PartialEq, Eq)]
pub struct TenseViewModel {
    pub name: String,
    pub inflections_list: Vec<Vec<String>>,
    pub ar_values_exist: Vec<bool>,
}

/// The forms of a noun or pronoun in one case: a list of forms for each
/// gender, or class, and number.
#[derive(Debug, Clone, PartialEq, Eq)]
pub struct CaseViewModel {
    pub name: String,
    pub inflections_list: Vec<Vec<String>>,
}

/// The forms of a dual pronoun in one case.
#[derive(Debug, Clone, PartialEq, Eq)]
pub struct DualCaseViewModel {
    pub name: String,
    pub inflections: Vec<String>,
}

/// Each list holds forms as a host shows them for the endings of a reply,
/// in dictionary order.
pub open spec fn lists_shown_in_order(lists: Seq<Vec<String>>) -> bool {
    forall|i: int| 0 <= i < lists.len() ==> shown_in_order((#[trigger] lists[i]).deep_view())
}

/// The tables of values of a reply, each as the list of its cells; there
/// are `n` of them at least.
fn read_values(values: &Vec<Vec<Vec<String>>>, n: usize) -> (r: Result<Vec<Vec<String>>, String>)
    ensures
        match r {
            Ok(lists) => values.len() >= n && lists.len() == n && forall|i: int|
                0 <= i < n ==> (#[trigger] lists[i]).deep_view() == cells_of(
                    values.deep_view()[i],
                ),
            Err(e) => values.len() < n && e@ == no_values_message(),
        },
{
    if values.len() < n {
        return Err("sql query did not return the values".to_owned());
    }
    let mut lists: Vec<Vec<String>> = Vec::new();
    let mut i: usize = 0;
    while i < n
        invariant
            0 <= i <= n <= values.len(),
            lists.len() == i,
            forall|j: int|
                0 <= j < i ==> (#[trigger] lists[j]).deep_view() == cells_of(values.deep_view()[j]),
        decreases n - i,
    {
        let cells = flatten(&values[i]);
        assert(values.deep_view()[i as int] == values[i as int].deep_view());
        lists.push(cells);
        i = i + 1;
    }
    Ok(lists)
}

/// The tenses of a verb are laid out alike: each has a flag for each of
/// `voices` voices and a list of forms, in dictionary order, for each of
/// `persons` persons, each voice and each of `numbers` numbers.
pub open spec fn tenses_laid_out(
    view_models: Seq<TenseViewModel>,
    persons: int,
    voices: int,
    numbers: int,
) -> bool {
    forall|i: int|
        0 <= i < view_models.len() ==> {
            &&& (#[trigger] view_models[i]).ar_values_exist.len() == voices
            &&& view_models[i].inflections_list.len() == persons * voices * numbers
            &&& lists_shown_in_order(view_models[i].inflections_list@)
        }
}

/// The name of each tense of a verb with the flags of its voices, in
/// order.
pub open spec fn tense_heads(view_models: Seq<TenseViewModel>) -> Seq<(Seq<char>, Seq<bool>)> {
    view_models.map_values(|vm: TenseViewModel| (vm.name@, vm.ar_values_exist@))
}

/// The tenses that are kept of those named, with the flags of their voices,
/// given for each tense in turn the reply on the count of its forms and the
/// replies on the counts of its forms in each voice. A tense for which
/// nothing was counted is left out, and its voices are not looked at. The
/// first message among the replies stands for the whole.
pub open spec fn tenses_kept(names: Seq<Seq<char>>, replies: Seq<(Tables, Seq<Tables>)>) -> Result<
    Seq<(Seq<char>, Seq<bool>)>,
    Seq<char>,
>
    decreases replies.len(),
{
    if replies.len() == 0 {
        Ok(Seq::empty())
    } else {
        match tenses_kept(names, replies.drop_last()) {
            Err(e) => Err(e),
            Ok(kept) => match counts_nothing(replies.last().0) {
                Err(e) => Err(e),
                Ok(nothing) => if nothing {
                    Ok(kept)
                } else {
                    match counted(replies.last().1) {
                        Err(e) => Err(e),
                        Ok(flags) => Ok(kept.push((names[replies.len() - 1], flags))),
                    }
                },
            },
        }
    }
}

/// The tenses of a verb, given the host's replies: first the reply on the
/// tables of tenses, persons, voices and numbers, then for each tense the
/// replies on its counts. The result is the message that came in place of
/// the first reply, or for a reply with fewer than four tables, or the first
/// message among the replies on the counts. Else it holds the tenses that
/// are kept, each named by its cell of the table of tenses, with the flags
/// of its voices and a list of forms for each person, voice and number.
pub open spec fn conjugation_from_replies(
    r: Result<Vec<TenseViewModel>, String>,
    values_reply: Tables,
    tense_replies: Seq<(Tables, Seq<Tables>)>,
) -> bool {
    match values_reply {
        Err(e) => r is Err && r->Err_0@ == e,
        Ok(values) => if values.len() < 4 {
            r is Err && r->Err_0@ == no_values_message()
        } else {
            let tenses = cells_of(values[0]);
            match tenses_kept(tenses, tense_replies) {
                Err(e) => tense_replies.len() <= tenses.len() && r is Err && r->Err_0@ == e,
                Ok(kept) => {
                    &&& tense_replies.len() == tenses.len()
                    &&& r is Ok
                    &&& tense_heads(r->Ok_0@) == kept
                    &&& tenses_laid_out(
                        r->Ok_0@,
                        cells_of(values[1]).len() as int,
                        cells_of(values[2]).len() as int,
                        cells_of(values[3]).len() as int,
                    )
                },
            }
        },
    }
}

/// The tenses of a verb, or a message, that some replies of a host give.
pub open spec fn tenses_by_host(r: Result<Vec<TenseViewModel>, String>) -> bool {
    exists|values_reply: Tables, tense_replies: Seq<(Tables, Seq<Tables>)>| #[trigger]
        conjugation_from_replies(r, values_reply, tense_replies)
}

/// The forms of a verb, tense by tense, as the tables of the host give
/// them. A tense without forms in the verb's table is left out. Each list of
/// forms is in dictionary order, and all tenses are laid out alike.
pub fn create_tense_view_models<H: PlsInflectionsHost>(table_name: &str, stem: &str, host: &H) -> (r:
    Result<Vec<TenseViewModel>, String>)
    ensures
        tenses_by_host(r),
{
    let reply = exec_sql_query(host, CONJUGATION_VALUES_QUERY);
    let ghost values_reply = tables_view(reply);
    let values = match reply {
        Ok(values) => values,
        Err(e) => {
            let r = Err(e);
            assert(conjugation_from_replies(r, values_reply, Seq::empty()));
            return r;
        },
    };
    let pvs = match read_values(&values, 4) {
        Ok(pvs) => pvs,
        Err(e) => {
            let r = Err(e);
            assert(values.deep_view().len() == values.len());
            assert(conjugation_from_replies(r, values_reply, Seq::empty()));
            return r;
        },
    };
    let t_values = &pvs[0];
    let p_values = &pvs[1];
    let ar_values = &pvs[2];
    let n_values = &pvs[3];
    let ghost tenses = t_values.deep_view();
    let ghost persons = p_values.len() as int;
    let ghost voices = ar_values.len() as int;
    let ghost numbers = n_values.len() as int;
    proof {
        assert(values.deep_view().len() == values.len());
        assert(tenses == cells_of(values.deep_view()[0]));
        assert(tenses.len() == t_values.len());
        assert(p_values.deep_view() == cells_of(values.deep_view()[1]));
        assert(p_values.deep_view().len() == p_values.len());
        assert(ar_values.deep_view() == cells_of(values.deep_view()[2]));
        assert(ar_values.deep_view().len() == ar_values.len());
        assert(n_values.deep_view() == cells_of(values.deep_view()[3]));
        assert(n_values.deep_view().len() == n_values.len());
    }

    let mut view_models: Vec<TenseViewModel> = Vec::new();
    let ghost mut tense_replies: Seq<(Tables, Seq<Tables>)> = Seq::empty();
    let mut ti: usize = 0;
    assert(tense_heads(view_models@) =~= Seq::empty());
    while ti < t_values.len()
        invariant
            0 <= ti <= t_values.len(),
            tenses == t_values.deep_view(),
            tenses.len() == t_values.len(),
            persons == p_values.len(),
            voices == ar_values.len(),
            numbers == n_values.len(),
            values_reply == Ok::<Seq<Seq<Seq<Seq<char>>>>, Seq<char>>(values.deep_view()),
            values.len() >= 4,
            tenses == cells_of(values.deep_view()[0]),
            tense_replies.len() == ti,
            tenses_kept(tenses, tense_replies) == Ok::<Seq<(Seq<char>, Seq<bool>)>, Seq<char>>(
                tense_heads(view_models@),
            ),
            tenses_laid_out(view_models@, persons, voices, numbers),
        decreases t_values.len() - ti,
    {
        let t = &t_values[ti];
        let count = write_tense_count_query(table_name, t.as_str());
        let none = query_has_no_results(count.as_str(), host);
        let ghost count_reply = choose|reply: Tables|
            flag_view(none) == #[trigger] counts_nothing(reply);
        let ghost before = tense_replies;
        match none {
            Ok(true) => {
                proof {
                    tense_replies = before.push((count_reply, Seq::empty()));
                    assert(tense_replies.drop_last() =~= before);
                    assert(tense_replies.last() == (count_reply, Seq::<Tables>::empty()));
                }
                ti = ti + 1;
                continue ;
            },
            Ok(false) => {},
            Err(e) => {
                let r = Err(e);
                proof {
                    tense_replies = before.push((count_reply, Seq::empty()));
                    assert(tense_replies.drop_last() =~= before);
                    assert(tense_replies.last() == (count_reply, Seq::<Tables>::empty()));
                    assert(values.deep_view().len() == values.len());
                    assert(conjugation_from_replies(r, values_reply, tense_replies));
                }
                return r;
            },
        }
        let mut ar_values_exist: Vec<bool> = Vec::new();
        let ghost mut voice_replies: Seq<Tables> = Seq::empty();
        let mut ai: usize = 0;
        while ai < ar_values.len()
            invariant
                0 <= ai <= ar_values.len(),
                ti < t_values.len(),
                ar_values_exist.len() == ai,
                voice_replies.len() == ai,
                counted(voice_replies) == Ok::<Seq<bool>, Seq<char>>(ar_values_exist@),
                tenses.len() == t_values.len(),
                values_reply == Ok::<Seq<Seq<Seq<Seq<char>>>>, Seq<char>>(values.deep_view()),
                values.len() >= 4,
                tenses == cells_of(values.deep_view()[0]),
                before.len() == ti,
                tenses_kept(tenses, before) is Ok,
                counts_nothing(count_reply) == Ok::<bool, Seq<char>>(false),
            decreases ar_values.len() - ai,
        {
            let count = write_voice_count_query(table_name, t.as_str(), ar_values[ai].as_str());
            let none = query_has_no_results(count.as_str(), host);
            proof {
                let reply = choose|reply: Tables|
                    flag_view(none) == #[trigger] counts_nothing(reply);
                let longer = voice_replies.push(reply);
                assert(longer.drop_last() =~= voice_replies);
                assert(longer.last() == reply);
                voice_replies = longer;
            }
            match none {
                Ok(none) => {
                    ar_values_exist.push(!none);
                },
                Err(e) => {
                    let r = Err(e);
                    proof {
                        let all = before.push((count_reply, voice_replies));
                        assert(all.drop_last() =~= before);
                        assert(all.last() == (count_reply, voice_replies));
                        assert(values.deep_view().len() == values.len());
                        assert(conjugation_from_replies(r, values_reply, all));
                    }
                    return r;
                },
            }
            ai = ai + 1;
        }
        let mut inflections_list: Vec<Vec<String>> = Vec::new();
        let mut pi: usize = 0;
        assert(0 * voices * numbers == 0) by (nonlinear_arith);
        while pi < p_values.len()
            invariant
                0 <= pi <= p_values.len(),
                ti < t_values.len(),
                persons == p_values.len(),
                voices == ar_values.len(),
                numbers == n_values.len(),
                inflections_list.len() == pi * voices * numbers,
                lists_shown_in_order(inflections_list@),
            decreases p_values.len() - pi,
        {
            let mut ai: usize = 0;
            assert(pi * voices * numbers == (pi * voices + 0) * numbers) by (nonlinear_arith);
            while ai < ar_values.len()
                invariant
                    0 <= ai <= ar_values.len(),
                    ti < t_values.len(),
                    pi < p_values.len(),
                    voices == ar_values.len(),
                    numbers == n_values.len(),
                    inflections_list.len() == (pi * voices + ai) * numbers,
                    lists_shown_in_order(inflections_list@),
                decreases ar_values.len() - ai,
            {
                let mut ni: usize = 0;
                while ni < n_values.len()
                    invariant
                        0 <= ni <= n_values.len(),
                        ti < t_values.len(),
                        pi < p_values.len(),
                        ai < ar_values.len(),
                        numbers == n_values.len(),
                        inflections_list.len() == (pi * voices + ai) * numbers + ni,
                        lists_shown_in_order(inflections_list@),
                    decreases n_values.len() - ni,
                {
                    let sql = write_conjugation_query(
                        table_name,
                        t.as_str(),
                        p_values[pi].as_str(),
                        ar_values[ai].as_str(),
                        n_values[ni].as_str(),
                    );
                    let inflections = get_inflections(stem, sql.as_str(), host);
                    inflections_list.push(inflections);
                    ni = ni + 1;
                }
                assert((pi * voices + ai) * numbers + numbers == (pi * voices + (ai + 1)) * numbers)
                    by (nonlinear_arith);
                ai = ai + 1;
            }
            assert((pi * voices + voices) * numbers == (pi + 1) * voices * numbers)
                by (nonlinear_arith);
            pi = pi + 1;
        }
        let ghost heads = tense_heads(view_models@);
        view_models.push(TenseViewModel { name: t.clone(), inflections_list, ar_values_exist });
        proof {
            tense_replies = before.push((count_reply, voice_replies));
            assert(tense_replies.drop_last() =~= before);
            assert(tense_replies.last() == (count_reply, voice_replies));
            assert(tenses[ti as int] == t@);
            assert(tense_heads(view_models@) =~= heads.push((t@, ar_values_exist@)));
        }
        ti = ti + 1;
    }
    let r = Ok(view_models);
    proof {
        assert(conjugation_from_replies(r, values_reply, tense_replies));
    }
    r
}

/// The names of the cases of a noun or pronoun, in order.
pub open spec fn case_names(view_models: Seq<CaseViewModel>) -> Seq<Seq<char>> {
    view_models.map_values(|vm: CaseViewModel| vm.name@)
}

/// The cases of a noun or pronoun are laid out alike: each has a list of
/// forms, in dictionary order, for each of `genders` genders and each of
/// `numbers` numbers.
pub open spec fn cases_laid_out(view_models: Seq<CaseViewModel>, genders: int, numbers: int) -> bool {
    forall|i: int|
        0 <= i < view_models.len() ==> {
            &&& (#[trigger] view_models[i]).inflections_list.len() == genders * numbers
            &&& lists_shown_in_order(view_models[i].inflections_list@)
        }
}

/// The cases of a noun and the flags of its genders, given the host's
/// replies: first the reply on the tables of cases, genders and numbers,
/// then one reply for each gender on the count of the noun's forms in it.
/// The result is the message that came in place of the first reply, or for
/// a reply with fewer than three tables, or the first message among the
/// replies on the counts. Else there is a flag for each gender, set where
/// something was counted, and a case for each cell of the table of cases,
/// named by the cell, with a list of forms for each gender and number.
pub open spec fn declension_from_replies(
    r: Result<(Vec<CaseViewModel>, Vec<bool>), String>,
    values_reply: Tables,
    gender_replies: Seq<Tables>,
) -> bool {
    match values_reply {
        Err(e) => r is Err && r->Err_0@ == e,
        Ok(values) => if values.len() < 3 {
            r is Err && r->Err_0@ == no_values_message()
        } else {
            let genders = cells_of(values[1]).len();
            match counted(gender_replies) {
                Err(e) => gender_replies.len() <= genders && r is Err && r->Err_0@ == e,
                Ok(flags) => {
                    &&& gender_replies.len() == genders
                    &&& r is Ok
                    &&& r->Ok_0.1@ == flags
                    &&& case_names(r->Ok_0.0@) == cells_of(values[0])
                    &&& cases_laid_out(
                        r->Ok_0.0@,
                        genders as int,
                        cells_of(values[2]).len() as int,
                    )
                },
            }
        },
    }
}

/// The cases of a noun with the flags of its genders, or a message, that
/// some replies of a host give.
pub open spec fn noun_cases_by_host(r: Result<(Vec<CaseViewModel>, Vec<bool>), String>) -> bool {
    exists|values_reply: Tables, gender_replies: Seq<Tables>| #[trigger]
        declension_from_replies(r, values_reply, gender_replies)
}

/// The forms of a noun, case by case, as the tables of the host give them,
/// and for each gender whether the noun's table has forms in it. Each case
/// has a list of forms, in dictionary order, for each gender and number.
pub fn create_case_view_models<H: PlsInflectionsHost>(table_name: &str, stem: &str, host: &H) -> (r:
    Result<(Vec<CaseViewModel>, Vec<bool>), String>)
    ensures
        noun_cases_by_host(r),
{
    let reply = exec_sql_query(host, DECLENSION_VALUES_QUERY);
    let ghost values_reply = tables_view(reply);
    let values = match reply {
        Ok(values) => values,
        Err(e) => {
            let r = Err(e);
            assert(declension_from_replies(r, values_reply, Seq::empty()));
            return r;
        },
    };
    let pvs = match read_values(&values, 3) {
        Ok(pvs) => pvs,
        Err(e) => {
            let r = Err(e);
            assert(values.deep_view().len() == values.len());
            assert(declension_from_replies(r, values_reply, Seq::empty()));
            return r;
        },
    };
    let c_values = &pvs[0];
    let g_values = &pvs[1];
    let n_values = &pvs[2];
    let ghost cases = c_values.deep_view();
    let ghost genders = g_values.len() as int;
    let ghost numbers = n_values.len() as int;
    proof {
        assert(values.deep_view().len() == values.len());
        assert(cases == cells_of(values.deep_view()[0]));
        assert(g_values.deep_view() == cells_of(values.deep_view()[1]));
        assert(g_values.deep_view().len() == g_values.len());
        assert(n_values.deep_view() == cells_of(values.deep_view()[2]));
        assert(n_values.deep_view().len() == n_values.len());
    }

    let mut g_values_exist: Vec<bool> = Vec::new();
    let ghost mut gender_replies: Seq<Tables> = Seq::empty();
    let mut gi: usize = 0;
    while gi < g_values.len()
        invariant
            0 <= gi <= g_values.len(),
            genders == g_values.len(),
            gender_replies.len() == gi,
            counted(gender_replies) == Ok::<Seq<bool>, Seq<char>>(g_values_exist@),
            values_reply == Ok::<Seq<Seq<Seq<Seq<char>>>>, Seq<char>>(values.deep_view()),
            values.len() >= 3,
            genders == cells_of(values.deep_view()[1]).len(),
        decreases g_values.len() - gi,
    {
        let count = write_gender_count_query(table_name, g_values[gi].as_str());
        let none = query_has_no_results(count.as_str(), host);
        proof {
            let reply = choose|reply: Tables| flag_view(none) == #[trigger] counts_nothing(reply);
            let longer = gender_replies.push(reply);
            assert(longer.drop_last() =~= gender_replies);
            assert(longer.last() == reply);
            gender_replies = longer;
        }
        match none {
            Ok(none) => {
                g_values_exist.push(!none);
            },
            Err(e) => {
                let r = Err(e);
                assert(values.deep_view().len() == values.len());
                assert(declension_from_replies(r, values_reply, gender_replies));
                return r;
            },
        }
        gi = gi + 1;
    }

    let mut view_models: Vec<CaseViewModel> = Vec::new();
    let mut ci: usize = 0;
    assert(case_names(view_models@) =~= cases.take(0));
    while ci < c_values.len()
        invariant
            0 <= ci <= c_values.len(),
            cases == c_values.deep_view(),
            genders == g_values.len(),
            numbers == n_values.len(),
            case_names(view_models@) == cases.take(ci as int),
            cases_laid_out(view_models@, genders, numbers),
        decreases c_values.len() - ci,
    {
        let mut inflections_list: Vec<Vec<String>> = Vec::new();
        let mut gi: usize = 0;
        assert(0 * numbers == 0) by (nonlinear_arith);
        while gi < g_values.len()
            invariant
                0 <= gi <= g_values.len(),
                ci < c_values.len(),
                genders == g_values.len(),
                numbers == n_values.len(),
                inflections_list.len() == gi * numbers,
                lists_shown_in_order(inflections_list@),
            decreases g_values.len() - gi,
        {
            let mut ni: usize = 0;
            while ni < n_values.len()
                invariant
                    0 <= ni <= n_values.len(),
                    ci < c_values.len(),
                    gi < g_values.len(),
                    numbers == n_values.len(),
                    inflections_list.len() == gi * numbers + ni,
                    lists_shown_in_order(inflections_list@),
                decreases n_values.len() - ni,
            {
                let sql = write_declension_query(
                    table_name,
                    c_values[ci].as_str(),
                    g_values[gi].as_str(),
                    n_values[ni].as_str(),
                );
                let inflections = get_inflections(stem, sql.as_str(), host);
                inflections_list.push(inflections);
                ni = ni + 1;
            }
            assert(gi * numbers + numbers == (gi + 1) * numbers) by (nonlinear_arith);
            gi = gi + 1;
        }
        let ghost names = case_names(view_models@);
        view_models.push(CaseViewModel { name: c_values[ci].clone(), inflections_list });
        proof {
            assert(cases[ci as int] == c_values[ci as int]@);
            assert(case_names(view_models@) =~= names.push(cases[ci as int]));
            assert(cases.take(ci + 1) =~= cases.take(ci as int).push(cases[ci as int]));
        }
        ci = ci + 1;
    }
    let r = Ok((view_models, g_values_exist));
    proof {
        assert(cases.take(ci as int) =~= cases);
        assert(declension_from_replies(r, values_reply, gender_replies));
    }
    r
}

/// The forms of a noun as the first part of a compound, as the host shows
/// them for the endings that its table holds under no case, gender or
/// number, in dictionary order.
pub fn create_template_view_model_for_in_comps<H: PlsInflectionsHost>(
    table_name: &str,
    stem: &str,
    host: &H,
) -> (r: Vec<String>)
    ensures
        shown_in_order(r.deep_view()),
{
    let sql = write_declension_query(table_name, "", "", "");
    get_inflections(stem, sql.as_str(), host)
}

/// The cases of a personal pronoun, given the host's reply on the tables of
/// cases and numbers: the message that came in place of the reply, or for a
/// reply with fewer than two tables; and else one case for each cell of the
/// reply's first table, named by the cell, with a list of forms for each
/// cell of its second table.
pub open spec fn pronoun_cases_from_reply(
    r: Result<Vec<CaseViewModel>, String>,
    values_reply: Tables,
) -> bool {
    match values_reply {
        Err(e) => r is Err && r->Err_0@ == e,
        Ok(values) => if values.len() < 2 {
            r is Err && r->Err_0@ == no_values_message()
        } else {
            &&& r is Ok
            &&& case_names(r->Ok_0@) == cells_of(values[0])
            &&& cases_laid_out(r->Ok_0@, 1, cells_of(values[1]).len() as int)
        },
    }
}

/// The cases of a personal pronoun, or a message, that some reply of a host
/// gives.
pub open spec fn pronoun_cases_by_host(r: Result<Vec<CaseViewModel>, String>) -> bool {
    exists|values_reply: Tables| #[trigger] pronoun_cases_from_reply(r, values_reply)
}

/// The forms of a personal pronoun of a class, case by case, as the tables
/// of the host give them. Each case has a list of forms, in dictionary
/// order, for each number.
pub fn create_pronoun_case_view_models<H: PlsInflectionsHost>(
    pron_type: &str,
    table_name: &str,
    stem: &str,
    host: &H,
) -> (r: Result<Vec<CaseViewModel>, String>)
    ensures
        pronoun_cases_by_host(r),
{
    let reply = exec_sql_query(host, PRONOUN_VALUES_QUERY);
    let ghost values_reply = tables_view(reply);
    let values = match reply {
        Ok(values) => values,
        Err(e) => {
            let r = Err(e);
            assert(pronoun_cases_from_reply(r, values_reply));
            return r;
        },
    };
    let pvs = match read_values(&values, 2) {
        Ok(pvs) => pvs,
        Err(e) => {
            let r = Err(e);
            assert(values.deep_view().len() == values.len());
            assert(pronoun_cases_from_reply(r, values_reply));
            return r;
        },
    };
    let c_values = &pvs[0];
    let n_values = &pvs[1];
    let ghost cases = c_values.deep_view();
    let ghost numbers = n_values.len() as int;
    let mut view_models: Vec<CaseViewModel> = Vec::new();
    let mut ci: usize = 0;
    assert(case_names(view_models@) =~= cases.take(0));
    while ci < c_values.len()
        invariant
            0 <= ci <= c_values.len(),
            cases == c_values.deep_view(),
            numbers == n_values.len(),
            case_names(view_models@) == cases.take(ci as int),
            cases_laid_out(view_models@, 1, numbers),
        decreases c_values.len() - ci,
    {
        let mut inflections_list: Vec<Vec<String>> = Vec::new();
        let mut ni: usize = 0;
        while ni < n_values.len()
            invariant
                0 <= ni <= n_values.len(),
                ci < c_values.len(),
                inflections_list.len() == ni,
                lists_shown_in_order(inflections_list@),
            decreases n_values.len() - ni,
        {
            let sql = write_pronoun_query(
                table_name,
                c_values[ci].as_str(),
                pron_type,
                n_values[ni].as_str(),
            );
            let inflections = get_inflections(stem, sql.as_str(), host);
            inflections_list.push(inflections);
            ni = ni + 1;
        }
        let ghost names = case_names(view_models@);
        view_models.push(CaseViewModel { name: c_values[ci].clone(), inflections_list });
        proof {
            assert(cases[ci as int] == c_values[ci as int]@);
            assert(case_names(view_models@) =~= names.push(cases[ci as int]));
            assert(cases.take(ci + 1) =~= cases.take(ci as int).push(cases[ci as int]));
        }
        ci = ci + 1;
    }
    let r = Ok(view_models);
    proof {
        assert(cases.take(ci as int) =~= cases);
        assert(values.deep_view().len() == values.len());
        assert(cases == cells_of(values.deep_view()[0]));
        assert(n_values.deep_view() == cells_of(values.deep_view()[1]));
        assert(n_values.deep_view().len() == n_values.len());
        assert(pronoun_cases_from_reply(r, values_reply));
    }
    r
}

/// The names of the cases of a dual pronoun, in order.
pub open spec fn dual_case_names(view_models: Seq<DualCaseViewModel>) -> Seq<Seq<char>> {
    view_models.map_values(|vm: DualCaseViewModel| vm.name@)
}

/// The cases of a dual pronoun, given the host's reply on the table of
/// cases: the message that came in place of the reply, or for a reply
/// without a table; and else one case for each cell of the reply's first
/// table, named by the cell, with forms as the host shows them.
pub open spec fn dual_cases_from_reply(
    r: Result<Vec<DualCaseViewModel>, String>,
    values_reply: Tables,
) -> bool {
    match values_reply {
        Err(e) => r is Err && r->Err_0@ == e,
        Ok(values) => if values.len() < 1 {
            r is Err && r->Err_0@ == no_values_message()
        } else {
            &&& r is Ok
            &&& dual_case_names(r->Ok_0@) == cells_of(values[0])
            &&& forall|i: int|
                0 <= i < r->Ok_0.len() ==> shown_in_order(
                    (#[trigger] r->Ok_0[i]).inflections.deep_view(),
                )
        },
    }
}

/// The cases of a dual pronoun, or a message, that some reply of a host
/// gives.
pub open spec fn dual_cases_by_host(r: Result<Vec<DualCaseViewModel>, String>) -> bool {
    exists|values_reply: Tables| #[trigger] dual_cases_from_reply(r, values_reply)
}

/// The forms of a dual pronoun, case by case, as the tables of the host
/// give them, each list in dictionary order.
pub fn create_dual_case_view_models<H: PlsInflectionsHost>(
    table_name: &str,
    stem: &str,
    host: &H,
) -> (r: Result<Vec<DualCaseViewModel>, String>)
    ensures
        dual_cases_by_host(r),
{
    let reply = exec_sql_query(host, DUAL_PRONOUN_VALUES_QUERY);
    let ghost values_reply = tables_view(reply);
    let values = match reply {
        Ok(values) => values,
        Err(e) => {
            let r = Err(e);
            assert(dual_cases_from_reply(r, values_reply));
            return r;
        },
    };
    let pvs = match read_values(&values, 1) {
        Ok(pvs) => pvs,
        Err(e) => {
            let r = Err(e);
            assert(values.deep_view().len() == values.len());
            assert(dual_cases_from_reply(r, values_reply));
            return r;
        },
    };
    let c_values = &pvs[0];
    let ghost cases = c_values.deep_view();
    let mut view_models: Vec<DualCaseViewModel> = Vec::new();
    let mut ci: usize = 0;
    assert(dual_case_names(view_models@) =~= cases.take(0));
    while ci < c_values.len()
        invariant
            0 <= ci <= c_values.len(),
            cases == c_values.deep_view(),
            dual_case_names(view_models@) == cases.take(ci as int),
            forall|i: int|
                0 <= i < view_models.len() ==> shown_in_order(
                    (#[trigger] view_models[i]).inflections.deep_view(),
                ),
        decreases c_values.len() - ci,
    {
        let sql = write_pronoun_query(table_name, c_values[ci].as_str(), "dual", "sg");
        let inflections = get_inflections(stem, sql.as_str(), host);
        let ghost names = dual_case_names(view_models@);
        view_models.push(DualCaseViewModel { name: c_values[ci].clone(), inflections });
        proof {
            assert(cases[ci as int] == c_values[ci as int]@);
            assert(dual_case_names(view_models@) =~= names.push(cases[ci as int]));
            assert(cases.take(ci + 1) =~= cases.take(ci as int).push(cases[ci as int]));
        }
        ci = ci + 1;
    }
    let r = Ok(view_models);
    proof {
        assert(cases.take(ci as int) =~= cases);
        assert(values.deep_view().len() == values.len());
        assert(cases == cells_of(values.deep_view()[0]));
        assert(dual_cases_from_reply(r, values_reply));
    }
    r
}

/// The forms of a dual pronoun as the first part of a compound, as the host
/// shows them for the endings that its table holds under no case, class or
/// number, in dictionary order.
pub fn create_dual_view_model_for_in_comps<H: PlsInflectionsHost>(
    table_name: &str,
    stem: &str,
    host: &H,
) -> (r: Vec<String>)
    ensures
        shown_in_order(r.deep_view()),
{
    let sql = write_pronoun_query(table_name, "", "", "");
    get_inflections(stem, sql.as_str(), host)
}

/// What is shown for a word that has no table of forms.
#[derive(Debug, Clone, PartialEq, Eq)]
pub struct IndeclinableViewModel {
    pub word: String,
    pub is_inflected_form: bool,
    pub meaning: String,
    pub pos: String,
    pub with_details: bool,
}

/// What is shown for a verb.
#[derive(Debug, Clone, PartialEq, Eq)]
pub struct ConjugationViewModel {
    pub stem: String,
    pub view_models: Vec<TenseViewModel>,
    pub abbrev_map: Vec<(String, String)>,
}

/// What is shown for a noun.
#[derive(Debug, Clone, PartialEq, Eq)]
pub struct DeclensionViewModel {
    pub pattern: String,
    pub stem: String,
    pub g_values_exist: Vec<bool>,
    pub view_models: Vec<CaseViewModel>,
    pub in_comps_inflections: Vec<String>,
}

/// What is shown for a personal pronoun.
#[derive(Debug, Clone, PartialEq, Eq)]
pub struct PronounViewModel {
    pub pattern: String,
    pub pron_type: String,
    pub stem: String,
    pub view_models: Vec<CaseViewModel>,
    pub in_comps_inflections: Vec<String>,
    pub abbrev_map: Vec<(String, String)>,
}

/// What is shown for a dual pronoun.
#[derive(Debug, Clone, PartialEq, Eq)]
pub struct DualPronounViewModel {
    pub pattern: String,
    pub stem: String,
    pub view_models: Vec<DualCaseViewModel>,
    pub in_comps_inflections: Vec<String>,
    pub abbrev_map: Vec<(String, String)>,
}

/// What is shown for a head word, by the way it takes its forms.
#[derive(Debug, Clone, PartialEq, Eq)]
pub enum BodyViewModel {
    Indeclinable(IndeclinableViewModel),
    Conjugation(ConjugationViewModel),
    Declension(DeclensionViewModel),
    Pronoun(PronounViewModel),
    DualPronoun(DualPronounViewModel),
}

/// The message for a word with a table of forms where one without is
/// expected.
pub open spec fn not_indeclinable_message() -> Seq<char> {
    "WordType should be either InflectedForm or Indeclinable."@
}

/// What is shown for a word that has no table of forms, given what is
/// known of the word: its meaning and part of speech, and whether it is an
/// inflected form. The word itself is shown as a host transliterates it.
pub open spec fn indeclinable_model_of(
    vm: IndeclinableViewModel,
    pm: Pali1MetadataView,
    with_details: bool,
) -> bool {
    &&& match pm.word_type {
        WordTypeView::InflectedForm { stems } => vm.is_inflected_form,
        WordTypeView::Indeclinable { stem } => !vm.is_inflected_form,
        _ => false,
    }
    &&& vm.meaning@ == pm.meaning
    &&& vm.pos@ == pm.pos
    &&& vm.with_details == with_details
}

/// What is shown for a word that has no table of forms: the word as the host
/// transliterates it (for an inflected form, the stems it belongs to), with
/// its meaning and part of speech.
pub fn create_indeclinable_view_model<H: PlsInflectionsHost>(
    pm: &Pali1Metadata,
    host: &H,
    with_details: bool,
) -> (r: Result<IndeclinableViewModel, String>)
    ensures
        match r {
            Ok(vm) => indeclinable_model_of(vm, pm@, with_details),
            Err(e) => !(pm@.word_type is InflectedForm) && !(pm@.word_type is Indeclinable) ==> e@
                == not_indeclinable_message(),
        },
{
    let (shown, is_inflected_form) = match &pm.word_type {
        WordType::InflectedForm { stems } => (host.transliterate(stems.as_str()), true),
        WordType::Indeclinable { stem } => (host.transliterate(pm.pali1.as_str()), false),
        _ => {
            return Err("WordType should be either InflectedForm or Indeclinable.".to_owned());
        },
    };
    match shown {
        Ok(word) => Ok(
            IndeclinableViewModel {
                word,
                is_inflected_form,
                meaning: pm.meaning.clone(),
                pos: pm.pos.clone(),
                with_details,
            },
        ),
        Err(e) => Err(e),
    }
}

/// What is shown for a verb with a stem: the stem, the tenses that some
/// replies of a host give, and abbreviations that a reply of a host gives.
pub open spec fn conjugation_model_by_host(vm: ConjugationViewModel, stem: Seq<char>) -> bool {
    &&& vm.stem@ == stem
    &&& tenses_by_host(Ok(vm.view_models))
    &&& abbreviations_by_host(Ok(vm.abbrev_map))
}

/// What is shown for a verb of a pattern.
pub fn create_conjugation_view_model<H: PlsInflectionsHost>(pattern: &str, stem: &str, host: &H) -> (r:
    Result<ConjugationViewModel, String>)
    ensures
        r is Ok ==> conjugation_model_by_host(r->Ok_0, stem@),
{
    let table_name = get_table_name_from_pattern(pattern);
    let view_models = match create_tense_view_models(table_name.as_str(), stem, host) {
        Ok(view_models) => view_models,
        Err(e) => {
            return Err(e);
        },
    };
    let abbrev_map = match get_abbreviations_for_locale(host) {
        Ok(abbrev_map) => abbrev_map,
        Err(e) => {
            return Err(e);
        },
    };
    Ok(ConjugationViewModel { stem: stem.to_owned(), view_models, abbrev_map })
}

/// What is shown for a noun of a pattern with a stem: the pattern, the
/// stem, the cases and gender flags that some replies of a host give, and
/// the forms in compounds as a host shows them.
pub open spec fn declension_model_by_host(
    vm: DeclensionViewModel,
    pattern: Seq<char>,
    stem: Seq<char>,
) -> bool {
    &&& vm.pattern@ == pattern
    &&& vm.stem@ == stem
    &&& noun_cases_by_host(Ok((vm.view_models, vm.g_values_exist)))
    &&& shown_in_order(vm.in_comps_inflections.deep_view())
}

/// What is shown for a noun of a pattern.
pub fn create_declension_view_model<H: PlsInflectionsHost>(pattern: &str, stem: &str, host: &H) -> (r:
    Result<DeclensionViewModel, String>)
    ensures
        r is Ok ==> declension_model_by_host(r->Ok_0, pattern@, stem@),
{
    let table_name = get_table_name_from_pattern(pattern);
    let (view_models, g_values_exist) = match create_case_view_models(
        table_name.as_str(),
        stem,
        host,
    ) {
        Ok(found) => found,
        Err(e) => {
            return Err(e);
        },
    };
    let in_comps_inflections = create_template_view_model_for_in_comps(
        table_name.as_str(),
        stem,
        host,
    );
    Ok(
        DeclensionViewModel {
            pattern: pattern.to_owned(),
            stem: stem.to_owned(),
            g_values_exist,
            view_models,
            in_comps_inflections,
        },
    )
}

/// What is shown for a personal pronoun of a class and a pattern: the
/// class, the pattern, the cases that a reply of a host gives, no forms in
/// compounds, and abbreviations that a reply of a host gives. The stem is
/// shown as a host transliterates it.
pub open spec fn pronoun_model_by_host(
    vm: PronounViewModel,
    pron_type: Seq<char>,
    pattern: Seq<char>,
) -> bool {
    &&& vm.pattern@ == pattern
    &&& vm.pron_type@ == pron_type
    &&& pronoun_cases_by_host(Ok(vm.view_models))
    &&& vm.in_comps_inflections@.len() == 0
    &&& abbreviations_by_host(Ok(vm.abbrev_map))
}

/// What is shown for a personal pronoun of a class and a pattern; the stem
/// is shown as the host transliterates it.
pub fn create_pronoun_view_model<H: PlsInflectionsHost>(
    pron_type: &str,
    pattern: &str,
    stem: &str,
    host: &H,
) -> (r: Result<PronounViewModel, String>)
    ensures
        r is Ok ==> pronoun_model_by_host(r->Ok_0, pron_type@, pattern@),
{
    let table_name = get_table_name_from_pattern(pattern);
    let view_models = match create_pronoun_case_view_models(
        pron_type,
        table_name.as_str(),
        stem,
        host,
    ) {
        Ok(view_models) => view_models,
        Err(e) => {
            return Err(e);
        },
    };
    let abbrev_map = match get_abbreviations_for_locale(host) {
        Ok(abbrev_map) => abbrev_map,
        Err(e) => {
            return Err(e);
        },
    };
    let shown = match host.transliterate(stem) {
        Ok(shown) => shown,
        Err(e) => {
            return Err(e);
        },
    };
    Ok(
        PronounViewModel {
            pattern: pattern.to_owned(),
            pron_type: pron_type.to_owned(),
            stem: shown,
            view_models,
            in_comps_inflections: Vec::new(),
            abbrev_map,
        },
    )
}

/// What is shown for a dual pronoun of a pattern: the pattern, the cases
/// that a reply of a host gives, the forms in compounds as a host shows
/// them, and abbreviations that a reply of a host gives. The stem is shown
/// as a host transliterates it.
pub open spec fn dual_pronoun_model_by_host(vm: DualPronounViewModel, pattern: Seq<char>) -> bool {
    &&& vm.pattern@ == pattern
    &&& dual_cases_by_host(Ok(vm.view_models))
    &&& shown_in_order(vm.in_comps_inflections.deep_view())
    &&& abbreviations_by_host(Ok(vm.abbrev_map))
}

/// What is shown for a dual pronoun of a pattern; the stem is shown as the
/// host transliterates it.
pub fn create_dual_pronoun_view_model<H: PlsInflectionsHost>(pattern: &str, stem: &str, host: &H) -> (r:
    Result<DualPronounViewModel, String>)
    ensures
        r is Ok ==> dual_pronoun_model_by_host(r->Ok_0, pattern@),
{
    let table_name = get_table_name_from_pattern(pattern);
    let view_models = match create_dual_case_view_models(table_name.as_str(), stem, host) {
        Ok(view_models) => view_models,
        Err(e) => {
            return Err(e);
        },
    };
    let in_comps_inflections = create_dual_view_model_for_in_comps(table_name.as_str(), stem, host);
    let abbrev_map = match get_abbreviations_for_locale(host) {
        Ok(abbrev_map) => abbrev_map,
        Err(e) => {
            return Err(e);
        },
    };
    let shown = match host.transliterate(stem) {
        Ok(shown) => shown,
        Err(e) => {
            return Err(e);
        },
    };
    Ok(
        DualPronounViewModel {
            pattern: pattern.to_owned(),
            stem: shown,
            view_models,
            in_comps_inflections,
            abbrev_map,
        },
    )
}

/// The body that is shown for a word of an inflection class, a pattern and
/// a stem: that of a verb, a noun, a personal pronoun of the first or the
/// second person, or a dual pronoun, each as the replies of a host give it.
pub open spec fn body_by_host(
    body: BodyViewModel,
    stem: Seq<char>,
    pattern: Seq<char>,
    inflection_class: InflectionClass,
) -> bool {
    match inflection_class {
        InflectionClass::Conjugation => body is Conjugation && conjugation_model_by_host(
            body->Conjugation_0,
            stem,
        ),
        InflectionClass::Declension => body is Declension && declension_model_by_host(
            body->Declension_0,
            pattern,
            stem,
        ),
        InflectionClass::DeclensionPron1st => body is Pronoun && pronoun_model_by_host(
            body->Pronoun_0,
            "1st"@,
            pattern,
        ),
        InflectionClass::DeclensionPron2nd => body is Pronoun && pronoun_model_by_host(
            body->Pronoun_0,
            "2nd"@,
            pattern,
        ),
        InflectionClass::DeclensionPronDual => body is DualPronoun && dual_pronoun_model_by_host(
            body->DualPronoun_0,
            pattern,
        ),
    }
}

/// The body that is shown for a word of an inflection class, with the flag
/// that says that it is a table of forms.
fn create_view_model_for_inflection_class<H: PlsInflectionsHost>(
    stem: &str,
    pattern: &str,
    inflection_class: &InflectionClass,
    host: &H,
) -> (r: Result<(BodyViewModel, bool), String>)
    ensures
        r is Ok ==> r->Ok_0.1 && body_by_host(r->Ok_0.0, stem@, pattern@, *inflection_class),
{
    let body = match inflection_class {
        InflectionClass::Conjugation => match create_conjugation_view_model(pattern, stem, host) {
            Ok(vm) => BodyViewModel::Conjugation(vm),
            Err(e) => {
                return Err(e);
            },
        },
        InflectionClass::Declension => match create_declension_view_model(pattern, stem, host) {
            Ok(vm) => BodyViewModel::Declension(vm),
            Err(e) => {
                return Err(e);
            },
        },
        InflectionClass::DeclensionPron1st => match create_pronoun_view_model(
            "1st",
            pattern,
            stem,
            host,
        ) {
            Ok(vm) => BodyViewModel::Pronoun(vm),
            Err(e) => {
                return Err(e);
            },
        },
        InflectionClass::DeclensionPron2nd => match create_pronoun_view_model(
            "2nd",
            pattern,
            stem,
            host,
        ) {
            Ok(vm) => BodyViewModel::Pronoun(vm),
            Err(e) => {
                return Err(e);
            },
        },
        InflectionClass::DeclensionPronDual => match create_dual_pronoun_view_model(
            pattern,
            stem,
            host,
        ) {
            Ok(vm) => BodyViewModel::DualPronoun(vm),
            Err(e) => {
                return Err(e);
            },
        },
    };
    Ok((body, true))
}

/// The body that is shown for a head word, with the flag that says whether
/// it is a table of forms, given what is known of the word: for an inflected
/// form or an indeclinable what is shown for a word without a table, and no
/// table; for a word that is inflected by a pattern the table of the
/// pattern's class, with the stem of a declinable and without a stem for an
/// irregular word.
pub open spec fn body_of_word(body: BodyViewModel, is_table: bool, pm: Pali1MetadataView) -> bool {
    match pm.word_type {
        WordTypeView::InflectedForm { stems } => !is_table && body is Indeclinable,
        WordTypeView::Indeclinable { stem } => !is_table && body is Indeclinable,
        WordTypeView::Irregular { pattern, inflection_class } => is_table && body_by_host(
            body,
            Seq::empty(),
            pattern,
            inflection_class,
        ),
        WordTypeView::Declinable { stem, pattern, inflection_class } => is_table && body_by_host(
            body,
            stem,
            pattern,
            inflection_class,
        ),
    }
}

/// What is shown for a head word, and whether it is a table of forms: a
/// table for a word that is inflected by a pattern, by the pattern's class,
/// and none for an inflected form or an indeclinable. An irregular word has
/// its forms without a stem.
pub fn create_body_view_model<H: PlsInflectionsHost>(
    pm: &Pali1Metadata,
    host: &H,
    with_details: bool,
) -> (r: Result<(BodyViewModel, bool), String>)
    ensures
        r is Ok ==> body_of_word(r->Ok_0.0, r->Ok_0.1, pm@),
        r is Ok && r->Ok_0.0 is Indeclinable ==> indeclinable_model_of(
            r->Ok_0.0->Indeclinable_0,
            pm@,
            with_details,
        ),
{
    match &pm.word_type {
        WordType::InflectedForm { stems } => match create_indeclinable_view_model(
            pm,
            host,
            with_details,
        ) {
            Ok(vm) => Ok((BodyViewModel::Indeclinable(vm), false)),
            Err(e) => Err(e),
        },
        WordType::Indeclinable { stem } => match create_indeclinable_view_model(
            pm,
            host,
            with_details,
        ) {
            Ok(vm) => Ok((BodyViewModel::Indeclinable(vm), false)),
            Err(e) => Err(e),
        },
        WordType::Irregular { pattern, inflection_class } => {
            let empty = String::new();
            create_view_model_for_inflection_class(
                empty.as_str(),
                pattern.as_str(),
                inflection_class,
                host,
            )
        },
        WordType::Declinable {
            stem,
            pattern,
            inflection_class,
        } => create_view_model_for_inflection_class(
            stem.as_str(),
            pattern.as_str(),
            inflection_class,
            host,
        ),
    }
}

/// What is shown round the body for a head word.
#[derive(Debug, Clone, PartialEq, Eq)]
pub struct OutputViewModel {
    pub pali1: String,
    pub with_details: bool,
    pub pattern: String,
    pub like: String,
    pub pos: String,
    pub meaning: String,
    pub body: String,
    pub has_inflection_table: bool,
    pub feedback_form_url: String,
    pub host_url: String,
    pub host_version: String,
}

/// The pattern that a word is inflected by; the empty text for a word that
/// is inflected by none.
pub open spec fn pattern_of(word_type: WordTypeView) -> Seq<char> {
    match word_type {
        WordTypeView::Irregular { pattern, inflection_class } => pattern,
        WordTypeView::Declinable { stem, pattern, inflection_class } => pattern,
        _ => Seq::empty(),
    }
}

/// The inflection class under which mistakes in a word's forms are
/// reported: its own, or that of the nouns for a word that has none.
pub open spec fn feedback_class_of(word_type: WordTypeView) -> InflectionClass {
    match word_type {
        WordTypeView::Irregular { pattern, inflection_class } => inflection_class,
        WordTypeView::Declinable { stem, pattern, inflection_class } => inflection_class,
        _ => InflectionClass::Declension,
    }
}

/// What is shown round the body, with its texts as sequences of
/// characters.
pub struct OutputViewModelView {
    pub pali1: Seq<char>,
    pub with_details: bool,
    pub pattern: Seq<char>,
    pub like: Seq<char>,
    pub pos: Seq<char>,
    pub meaning: Seq<char>,
    pub body: Seq<char>,
    pub has_inflection_table: bool,
    pub feedback_form_url: Seq<char>,
    pub host_url: Seq<char>,
    pub host_version: Seq<char>,
}

impl View for OutputViewModel {
    type V = OutputViewModelView;

    open spec fn view(&self) -> OutputViewModelView {
        OutputViewModelView {
            pali1: self.pali1@,
            with_details: self.with_details,
            pattern: self.pattern@,
            like: self.like@,
            pos: self.pos@,
            meaning: self.meaning@,
            body: self.body@,
            has_inflection_table: self.has_inflection_table,
            feedback_form_url: self.feedback_form_url@,
            host_url: self.host_url@,
            host_version: self.host_version@,
        }
    }
}

/// What the host said while the output was put together: the head word
/// transliterated, and the host's address and version.
pub struct OutputReplies {
    pub shown: Result<Seq<char>, Seq<char>>,
    pub url: Seq<char>,
    pub version: Seq<char>,
}

/// What is shown round the body for a head word, given what the host said:
/// the transliterator's message where it gave one, and else the head word as
/// transliterated, what is known of the word, the body, the form on which
/// mistakes in the word's class are reported, and the host's address and
/// version.
pub open spec fn output_from_replies(
    pm: Pali1MetadataView,
    with_details: bool,
    body: Seq<char>,
    has_inflection_table: bool,
    replies: OutputReplies,
) -> Result<OutputViewModelView, Seq<char>> {
    match replies.shown {
        Err(e) => Err(e),
        Ok(shown) => Ok(
            OutputViewModelView {
                pali1: shown,
                with_details,
                pattern: pattern_of(pm.word_type),
                like: pm.like,
                pos: pm.pos,
                meaning: pm.meaning,
                body,
                has_inflection_table,
                feedback_form_url: feedback_url(feedback_class_of(pm.word_type)),
                host_url: replies.url,
                host_version: replies.version,
            },
        ),
    }
}

/// An output or a message as a value of the specification.
pub open spec fn output_view(r: Result<OutputViewModel, String>) -> Result<
    OutputViewModelView,
    Seq<char>,
> {
    match r {
        Ok(vm) => Ok(vm@),
        Err(e) => Err(e@),
    }
}

/// What is shown round the body for a head word: the head word as the host
/// transliterates it, what is known of the word, the body, where mistakes
/// are reported, and the host's address and version.
pub fn generate_output<H: PlsInflectionsHost>(
    pm: &Pali1Metadata,
    pali1: &str,
    with_details: bool,
    body: &str,
    has_inflection_table: bool,
    host: &H,
) -> (r: Result<OutputViewModel, String>)
    ensures
        exists|replies: OutputReplies|
            output_view(r) == #[trigger] output_from_replies(
                pm@,
                with_details,
                body@,
                has_inflection_table,
                replies,
            ),
{
    let feedback_form_url = match &pm.word_type {
        WordType::Irregular {
            pattern,
            inflection_class,
        } => get_feedback_url_for_inflection_class(inflection_class),
        WordType::Declinable {
            stem,
            pattern,
            inflection_class,
        } => get_feedback_url_for_inflection_class(inflection_class),
        _ => get_feedback_url_for_inflection_class(&InflectionClass::Declension),
    };
    let pattern = match &pm.word_type {
        WordType::Irregular { pattern, inflection_class } => pattern.clone(),
        WordType::Declinable { stem, pattern, inflection_class } => pattern.clone(),
        _ => String::new(),
    };
    let shown = match host.transliterate(pali1) {
        Ok(shown) => shown,
        Err(e) => {
            let r = Err(e);
            assert(output_view(r) == output_from_replies(
                pm@,
                with_details,
                body@,
                has_inflection_table,
                OutputReplies { shown: Err(e@), url: Seq::empty(), version: Seq::empty() },
            ));
            return r;
        },
    };
    let host_url = host.get_url();
    let host_version = host.get_version();
    let ghost replies = OutputReplies { shown: Ok(shown@), url: host_url@, version: host_version@ };
    let r = Ok(
        OutputViewModel {
            pali1: shown,
            with_details,
            pattern,
            like: pm.like.clone(),
            pos: pm.pos.clone(),
            meaning: pm.meaning.clone(),
            body: body.to_owned(),
            has_inflection_table,
            feedback_form_url: feedback_form_url.to_owned(),
            host_url,
            host_version,
        },
    );
    assert(output_view(r) == output_from_replies(
        pm@,
        with_details,
        body@,
        has_inflection_table,
        replies,
    ));
    r
}

} // verus!
