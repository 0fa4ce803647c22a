use crate::inflection_generator::InflectionGenerator;
use crate::inflections::pmd::tables_view;
use crate::text::{
    code_point_order, compare_code_points, decimal, i64_to_string,
    law_code_point_order_antisymmetric, law_code_point_order_transitive, parse_i64, parsed_i64,
};
use vstd::prelude::*;

verus! {

/// A head word with the number of its row in the table of stems.
#[derive(Debug, Clone, PartialEq, Eq)]
pub struct StemInfo {
    pub row_id: i64,
    pub pali1: String,
}

/// A form with the row number of the head word that it belongs to.
#[derive(Debug, Clone, PartialEq, Eq)]
pub struct InflectionInfo {
    pub pali1_id: i64,
    pub inflection: String,
}

/// The forms of one batch of head words, and how many of the head words had
/// none.
#[derive(Debug, Clone, PartialEq, Eq)]
pub struct InflectionsBatchInfo {
    pub inflection_infos: Vec<InflectionInfo>,
    pub inflected_forms_fetched: i64,
}

/// The statements that store one batch of forms, and how many of the batch's
/// head words had none.
#[derive(Debug, Clone, PartialEq, Eq)]
pub struct InflectionSqlQueryBatchInfo {
    pub inflection_sql_queries: Vec<String>,
    pub inflected_forms_fetched: i64,
}

/// Each text of the sequence sorts, by code points, before all that follow
/// it.
pub open spec fn strictly_increasing(words: Seq<Seq<char>>) -> bool {
    forall|i: int, j: int| 0 <= i < j < words.len() ==> code_point_order(words[i], words[j]) < 0
}

/// A sequence with one more element holds that element and what it held.
proof fn lemma_insert_contains(words: Seq<Seq<char>>, p: int, word: Seq<char>)
    requires
        0 <= p <= words.len(),
    ensures
        forall|w: Seq<char>|
            words.insert(p, word).contains(w) <==> (words.contains(w) || w == word),
{
    let next = words.insert(p, word);
    words.insert_ensures(p, word);
    assert forall|w: Seq<char>| next.contains(w) <==> (words.contains(w) || w == word) by {
        if words.contains(w) {
            let q = choose|q: int| 0 <= q < words.len() && words[q] == w;
            if q < p {
                assert(next[q] == w);
            } else {
                assert(next[q + 1] == w);
            }
        }
        if w == word {
            assert(next[p] == w);
        }
        if next.contains(w) {
            let q = choose|q: int| 0 <= q < next.len() && next[q] == w;
            if q < p {
                assert(words[q] == w);
            } else if q > p {
                assert(next[(q - 1) + 1] == words[q - 1]);
                assert(words[q - 1] == w);
            }
        }
    }
}

/// A sequence with one more element at its end holds that element and what
/// it held.
proof fn lemma_push_contains(words: Seq<Seq<char>>, word: Seq<char>)
    ensures
        forall|w: Seq<char>| words.push(word).contains(w) <==> (words.contains(w) || w == word),
{
    let next = words.push(word);
    assert forall|w: Seq<char>| next.contains(w) <==> (words.contains(w) || w == word) by {
        if words.contains(w) {
            let q = choose|q: int| 0 <= q < words.len() && words[q] == w;
            assert(next[q] == w);
        }
        if w == word {
            assert(next[words.len() as int] == w);
        }
        if next.contains(w) {
            let q = choose|q: int| 0 <= q < next.len() && next[q] == w;
            if q < words.len() {
                assert(words[q] == w);
            }
        }
    }
}

/// A text put between the texts that sort before it and those that sort
/// after it leaves the sequence in order.
proof fn lemma_insert_in_order(words: Seq<Seq<char>>, p: int, word: Seq<char>)
    requires
        strictly_increasing(words),
        0 <= p <= words.len(),
        forall|i: int| 0 <= i < p ==> code_point_order(words[i], word) < 0,
        p < words.len() ==> code_point_order(word, words[p]) < 0,
    ensures
        strictly_increasing(words.insert(p, word)),
{
    let next = words.insert(p, word);
    words.insert_ensures(p, word);
    assert forall|i: int, j: int| 0 <= i < j < next.len() implies code_point_order(
        next[i],
        next[j],
    ) < 0 by {
        if j == p {
            assert(next[i] == words[i]);
        } else if i == p {
            assert(next[(j - 1) + 1] == words[j - 1]);
            if j - 1 > p {
                law_code_point_order_transitive(word, words[p], words[j - 1]);
            }
        } else {
            let a = if i < p {
                i
            } else {
                i - 1
            };
            let b = if j < p {
                j
            } else {
                j - 1
            };
            assert(next[(a + 1)] == words[a] || next[a] == words[a]);
            assert(next[(b + 1)] == words[b] || next[b] == words[b]);
            assert(next[i] == words[a]);
            assert(next[j] == words[b]);
            assert(code_point_order(words[a], words[b]) < 0);
        }
    }
}

/// The texts of a list, each once, in the order of their code points.
pub fn sorted_unique(words: Vec<String>) -> (r: Vec<String>)
    ensures
        strictly_increasing(r.deep_view()),
        forall|w: Seq<char>| r.deep_view().contains(w) <==> words.deep_view().contains(w),
{
    let ghost all = words.deep_view();
    let mut out: Vec<String> = Vec::new();
    let mut k: usize = 0;
    while k < words.len()
        invariant
            0 <= k <= words.len(),
            all == words.deep_view(),
            strictly_increasing(out.deep_view()),
            forall|w: Seq<char>| out.deep_view().contains(w) <==> all.take(k as int).contains(w),
        decreases words.len() - k,
    {
        let word = words[k].clone();
        let ghost sorted = out.deep_view();
        let mut p: usize = 0;
        while p < out.len() && compare_code_points(word.as_str(), out[p].as_str()) > 0
            invariant
                0 <= p <= out.len(),
                sorted == out.deep_view(),
                forall|i: int| 0 <= i < p ==> code_point_order(sorted[i], word@) < 0,
            decreases out.len() - p,
        {
            proof {
                law_code_point_order_antisymmetric(word@, sorted[p as int]);
            }
            p = p + 1;
        }
        let found = p < out.len() && compare_code_points(word.as_str(), out[p].as_str()) == 0;
        proof {
            if p < out.len() {
                law_code_point_order_antisymmetric(word@, sorted[p as int]);
            }
            assert(all.take(k + 1) =~= all.take(k as int).push(word@));
            lemma_push_contains(all.take(k as int), word@);
        }
        let ghost seen = all.take(k as int);
        let ghost now = all.take(k + 1);
        if found {
            proof {
                assert(sorted[p as int] == word@);
                assert(sorted.contains(word@));
                assert forall|w: Seq<char>| sorted.contains(w) <==> now.contains(w) by {
                    assert(sorted.contains(w) <==> seen.contains(w));
                    assert(now.contains(w) <==> (seen.contains(w) || w == word@));
                }
            }
        } else {
            out.insert(p, word);
            proof {
                let next = out.deep_view();
                assert(next =~= sorted.insert(p as int, word@));
                lemma_insert_in_order(sorted, p as int, word@);
                lemma_insert_contains(sorted, p as int, word@);
                assert forall|w: Seq<char>| next.contains(w) <==> now.contains(w) by {
                    assert(sorted.contains(w) <==> seen.contains(w));
                    assert(now.contains(w) <==> (seen.contains(w) || w == word@));
                    assert(next.contains(w) <==> (sorted.contains(w) || w == word@));
                }
            }
        }
        k = k + 1;
    }
    assert(all.take(k as int) =~= all);
    out
}

/// A form and the row it belongs to, with the form as a sequence of
/// characters.
pub open spec fn info_view(info: InflectionInfo) -> (int, Seq<char>) {
    (info.pali1_id as int, info.inflection@)
}

/// The forms of a batch, with each form as a sequence of characters.
pub open spec fn infos_view(infos: Seq<InflectionInfo>) -> Seq<(int, Seq<char>)> {
    infos.map_values(|info: InflectionInfo| info_view(info))
}

/// Each form of a head word with the word's row number.
pub open spec fn with_row(row_id: int, forms: Seq<Seq<char>>) -> Seq<(int, Seq<char>)> {
    forms.map_values(|form: Seq<char>| (row_id, form))
}

/// What adding the forms of one head word makes of a batch, where `added`
/// holds the forms to add: each comes with the word's row number, and a word
/// without forms is counted.
pub open spec fn batch_with(
    before: (Seq<(int, Seq<char>)>, int),
    row_id: int,
    added: Seq<Seq<char>>,
) -> (Seq<(int, Seq<char>)>, int) {
    (
        before.0 + with_row(row_id, added),
        before.1 + if added.len() == 0 {
            1int
        } else {
            0int
        },
    )
}

/// A batch as a value of the specification.
pub open spec fn batch_view(ibi: InflectionsBatchInfo) -> (Seq<(int, Seq<char>)>, int) {
    (infos_view(ibi.inflection_infos@), ibi.inflected_forms_fetched as int)
}

/// Adds the forms of one head word to a batch: each form once, in the order
/// of their code points, with the word's row number. A word without forms
/// is counted.
pub fn add_inflections(ibi: &mut InflectionsBatchInfo, row_id: i64, infs: Vec<String>)
    requires
        old(ibi).inflected_forms_fetched < i64::MAX,
    ensures
        exists|added: Seq<Seq<char>>|
            {
                &&& strictly_increasing(added)
                &&& forall|w: Seq<char>| added.contains(w) <==> infs.deep_view().contains(w)
                &&& batch_view(*final(ibi)) == #[trigger] batch_with(
                    batch_view(*old(ibi)),
                    row_id as int,
                    added,
                )
            },
{
    let forms = sorted_unique(infs);
    if forms.len() == 0 {
        ibi.inflected_forms_fetched = ibi.inflected_forms_fetched + 1;
    }
    let ghost before = infos_view(ibi.inflection_infos@);
    let ghost all = forms.deep_view();
    let mut i: usize = 0;
    assert(before + with_row(row_id as int, all.take(0)) =~= before);
    while i < forms.len()
        invariant
            0 <= i <= forms.len(),
            all == forms.deep_view(),
            ibi.inflected_forms_fetched == old(ibi).inflected_forms_fetched + if all.len() == 0 {
                1int
            } else {
                0int
            },
            infos_view(ibi.inflection_infos@) == before + with_row(
                row_id as int,
                all.take(i as int),
            ),
        decreases forms.len() - i,
    {
        let ghost so_far = infos_view(ibi.inflection_infos@);
        let info = InflectionInfo { pali1_id: row_id, inflection: forms[i].clone() };
        ibi.inflection_infos.push(info);
        proof {
            assert(infos_view(ibi.inflection_infos@) =~= so_far.push((row_id as int, forms[i as int]@)));
            assert(all[i as int] == forms[i as int]@);
            assert(with_row(row_id as int, all.take(i + 1)) =~= with_row(
                row_id as int,
                all.take(i as int),
            ).push((row_id as int, all[i as int])));
        }
        i = i + 1;
    }
    assert(all.take(i as int) =~= all);
    assert(batch_view(*ibi) == batch_with(batch_view(*old(ibi)), row_id as int, all));
}

/// The forms of a batch of head words, as the generator gives them: for each
/// head word in turn its forms, each once and in the order of their code
/// points, with the word's row number; and the number of head words for which
/// the generator gave no form.
pub fn create_inflection_infos<G: InflectionGenerator>(stem_infos: Vec<StemInfo>, igen: &G) -> (r:
    InflectionsBatchInfo)
    requires
        stem_infos.len() < i64::MAX,
    ensures
        0 <= r.inflected_forms_fetched <= stem_infos.len(),
        exists|forms: Seq<Seq<Seq<char>>>| #[trigger]
            batch_of(stem_infos@, forms, stem_infos.len() as int) == (
                infos_view(r.inflection_infos@),
                r.inflected_forms_fetched as int,
            ) && forms.len() == stem_infos.len() && forall|i: int|
                0 <= i < forms.len() ==> strictly_increasing(#[trigger] forms[i]),
{
    let mut ibi = InflectionsBatchInfo { inflection_infos: Vec::new(), inflected_forms_fetched: 0 };
    let ghost mut forms: Seq<Seq<Seq<char>>> = Seq::empty();
    let mut i: usize = 0;
    assert(infos_view(ibi.inflection_infos@) =~= Seq::empty());
    while i < stem_infos.len()
        invariant
            0 <= i <= stem_infos.len(),
            stem_infos.len() < i64::MAX,
            forms.len() == i,
            0 <= ibi.inflected_forms_fetched <= i,
            forall|j: int| 0 <= j < i ==> strictly_increasing(#[trigger] forms[j]),
            batch_of(stem_infos@, forms, i as int) == (
                infos_view(ibi.inflection_infos@),
                ibi.inflected_forms_fetched as int,
            ),
        decreases stem_infos.len() - i,
    {
        let infs = igen.generate_all_inflections(stem_infos[i].pali1.as_str());
        let ghost before = batch_view(ibi);
        add_inflections(&mut ibi, stem_infos[i].row_id, infs);
        proof {
            let added = choose|added: Seq<Seq<char>>|
                {
                    &&& strictly_increasing(added)
                    &&& forall|w: Seq<char>| added.contains(w) <==> infs.deep_view().contains(w)
                    &&& batch_view(ibi) == #[trigger] batch_with(
                        before,
                        stem_infos[i as int].row_id as int,
                        added,
                    )
                };
            let longer = forms.push(added);
            assert forall|j: int| 0 <= j < i implies batch_of(stem_infos@, longer, j)
                == batch_of(stem_infos@, forms, j) by {
                lemma_batch_of_prefix(stem_infos@, forms, longer, j);
            }
            lemma_batch_of_prefix(stem_infos@, forms, longer, i as int);
            assert(longer[i as int] == added);
            forms = longer;
        }
        i = i + 1;
    }
    ibi
}

/// The batch that the first `n` head words give, where `forms` holds the
/// forms of each: the forms with their row numbers, and the number of head
/// words without forms.
pub open spec fn batch_of(stems: Seq<StemInfo>, forms: Seq<Seq<Seq<char>>>, n: int) -> (
    Seq<(int, Seq<char>)>,
    int,
)
    decreases n,
{
    if n <= 0 {
        (Seq::empty(), 0)
    } else {
        let before = batch_of(stems, forms, n - 1);
        (
            before.0 + with_row(stems[n - 1].row_id as int, forms[n - 1]),
            before.1 + if forms[n - 1].len() == 0 {
                1int
            } else {
                0int
            },
        )
    }
}

/// The batch of the first `n` head words looks at the forms of those words
/// only.
proof fn lemma_batch_of_prefix(
    stems: Seq<StemInfo>,
    forms: Seq<Seq<Seq<char>>>,
    longer: Seq<Seq<Seq<char>>>,
    n: int,
)
    requires
        0 <= n <= forms.len(),
        forms.len() <= longer.len(),
        forall|j: int| 0 <= j < forms.len() ==> longer[j] == forms[j],
    ensures
        batch_of(stems, longer, n) == batch_of(stems, forms, n),
    decreases n,
{
    if n > 0 {
        lemma_batch_of_prefix(stems, forms, longer, n - 1);
    }
}

/// The statement that stores one form.
pub open spec fn insert_statement(info: (int, Seq<char>)) -> Seq<char> {
    "INSERT INTO _all_words (inflection, stem_id) VALUES ('"@ + info.1 + "', "@ + decimal(info.0)
        + ")"@
}

/// The statements that store a batch of forms: one for each form, in order,
/// between `BEGIN` and `END`.
pub open spec fn batch_statements(infos: Seq<(int, Seq<char>)>) -> Seq<Seq<char>> {
    seq!["BEGIN"@] + infos.map_values(|info: (int, Seq<char>)| insert_statement(info)) + seq![
        "END"@,
    ]
}

/// The statements that store a batch of forms in the table of all words, as
/// one transaction.
pub fn create_inflection_sql_queries(inflection_infos: InflectionsBatchInfo) -> (r:
    InflectionSqlQueryBatchInfo)
    ensures
        r.inflection_sql_queries.deep_view() == batch_statements(
            infos_view(inflection_infos.inflection_infos@),
        ),
        r.inflected_forms_fetched == inflection_infos.inflected_forms_fetched,
{
    let infos = &inflection_infos.inflection_infos;
    let ghost all = infos_view(infos@);
    let mut inflection_sql_queries: Vec<String> = Vec::new();
    inflection_sql_queries.push("BEGIN".to_owned());
    assert(inflection_sql_queries.deep_view() =~= seq!["BEGIN"@]);
    let mut i: usize = 0;
    while i < infos.len()
        invariant
            0 <= i <= infos.len(),
            all == infos_view(infos@),
            inflection_sql_queries.deep_view() == seq!["BEGIN"@] + Seq::new(
                i as nat,
                |j: int| insert_statement(all[j]),
            ),
        decreases infos.len() - i,
    {
        let mut sql = "INSERT INTO _all_words (inflection, stem_id) VALUES ('".to_owned();
        sql.append(infos[i].inflection.as_str());
        sql.append("', ");
        sql.append(i64_to_string(infos[i].pali1_id).as_str());
        sql.append(")");
        let ghost so_far = inflection_sql_queries.deep_view();
        inflection_sql_queries.push(sql);
        proof {
            assert(all[i as int] == info_view(infos[i as int]));
            assert(sql@ == insert_statement(all[i as int]));
            assert(inflection_sql_queries.deep_view() =~= so_far.push(sql@));
            assert(inflection_sql_queries.deep_view() =~= seq!["BEGIN"@] + Seq::new(
                (i + 1) as nat,
                |j: int| insert_statement(all[j]),
            ));
        }
        i = i + 1;
    }
    let ghost so_far = inflection_sql_queries.deep_view();
    inflection_sql_queries.push("END".to_owned());
    proof {
        assert(inflection_sql_queries.deep_view() =~= so_far.push("END"@));
        assert(inflection_sql_queries.deep_view() =~= batch_statements(all));
    }
    InflectionSqlQueryBatchInfo {
        inflection_sql_queries,
        inflected_forms_fetched: inflection_infos.inflected_forms_fetched,
    }
}

/// An integer kept within the range of 64 bits with a sign.
pub open spec fn clamp_i64(n: int) -> int {
    if n > i64::MAX {
        i64::MAX as int
    } else if n < i64::MIN {
        i64::MIN as int
    } else {
        n
    }
}

fn clamp_to_i64(n: i128) -> (r: i64)
    ensures
        r == clamp_i64(n as int),
{
    if n > 9223372036854775807i128 {
        i64::MAX
    } else if n < -9223372036854775808i128 {
        i64::MIN
    } else {
        n as i64
    }
}

/// Walks the table of stems in batches: says which rows to ask for next and
/// takes each reply of the database.
#[derive(Debug, Clone, PartialEq, Eq)]
pub struct StemInfoIterator {
    pub max_stems_to_fetch: i64,
    pub max_batch_size: i64,
    pub stems_fetched: i64,
    pub batches_fetched: i64,
    pub error: Option<String>,
}

/// The message for a row of the table of stems that has no number and head
/// word.
pub open spec fn corrupt_row_message() -> Seq<char> {
    "rowid must be i64. check for db corruption."@
}

/// The head words that the rows of a reply hold: the first cell of each row
/// is the row's number and the second the head word. None where a row has
/// fewer cells or its first cell is no number.
pub open spec fn stems_of_rows(rows: Seq<Seq<Seq<char>>>) -> Option<Seq<(i64, Seq<char>)>>
    decreases rows.len(),
{
    if rows.len() == 0 {
        Some(Seq::empty())
    } else {
        let row = rows.last();
        match stems_of_rows(rows.drop_last()) {
            None => None,
            Some(before) => if row.len() >= 2 && parsed_i64(row[0]) is Some {
                Some(before.push((parsed_i64(row[0])->0, row[1])))
            } else {
                None
            },
        }
    }
}

/// Head words with their row numbers, as values of the specification.
pub open spec fn stems_view(stems: Seq<StemInfo>) -> Seq<(i64, Seq<char>)> {
    stems.map_values(|stem: StemInfo| (stem.row_id, stem.pali1@))
}

/// Reads the head words that the rows of a reply hold.
pub fn read_stems(rows: &Vec<Vec<String>>) -> (r: Option<Vec<StemInfo>>)
    ensures
        match r {
            Some(stems) => stems_of_rows(rows.deep_view()) == Some(stems_view(stems@)),
            None => stems_of_rows(rows.deep_view()) is None,
        },
{
    let ghost all = rows.deep_view();
    let mut stems: Vec<StemInfo> = Vec::new();
    let mut i: usize = 0;
    assert(all.take(0) =~= Seq::<Seq<Seq<char>>>::empty());
    assert(stems_view(stems@) =~= Seq::empty());
    while i < rows.len()
        invariant
            0 <= i <= rows.len(),
            all == rows.deep_view(),
            stems_of_rows(all.take(i as int)) == Some(stems_view(stems@)),
        decreases rows.len() - i,
    {
        let row = &rows[i];
        proof {
            assert(all[i as int] == row.deep_view());
            assert(all.take(i + 1).drop_last() =~= all.take(i as int));
            assert(all.take(i + 1).last() == all[i as int]);
            assert(row.deep_view().len() == row.len());
        }
        if row.len() < 2 {
            proof {
                lemma_stems_of_rows_prefix(all, i + 1);
            }
            return None;
        }
        assert(row.deep_view()[0] == row[0]@);
        assert(row.deep_view()[1] == row[1]@);
        let row_id = match parse_i64(row[0].as_str()) {
            Some(row_id) => row_id,
            None => {
                proof {
                    lemma_stems_of_rows_prefix(all, i + 1);
                }
                return None;
            },
        };
        let ghost so_far = stems_view(stems@);
        stems.push(StemInfo { row_id, pali1: row[1].clone() });
        assert(stems_view(stems@) =~= so_far.push((row_id, row[1]@)));
        i = i + 1;
    }
    assert(all.take(i as int) =~= all);
    Some(stems)
}

/// Where the first rows of a reply hold no head words, the reply holds
/// none.
proof fn lemma_stems_of_rows_prefix(rows: Seq<Seq<Seq<char>>>, n: int)
    requires
        0 <= n <= rows.len(),
        stems_of_rows(rows.take(n)) is None,
    ensures
        stems_of_rows(rows) is None,
    decreases rows.len(),
{
    if n < rows.len() {
        assert(rows.drop_last().take(n) =~= rows.take(n));
        lemma_stems_of_rows_prefix(rows.drop_last(), n);
    } else {
        assert(rows.take(n) =~= rows);
    }
}

impl StemInfoIterator {
    /// An iterator that has fetched nothing yet.
    pub fn new(max_stems_to_fetch: i64, max_batch_size: i64) -> (r: Self)
        ensures
            r.max_stems_to_fetch == max_stems_to_fetch,
            r.max_batch_size == max_batch_size,
            r.stems_fetched == 0,
            r.batches_fetched == 0,
            r.error is None,
    {
        StemInfoIterator {
            max_stems_to_fetch,
            max_batch_size,
            stems_fetched: 0,
            batches_fetched: 0,
            error: None,
        }
    }

    /// The number of rows that the next query asks for: what is left to
    /// fetch, but no more than a batch.
    pub open spec fn batch_size(&self) -> int {
        let stems_remaining = clamp_i64(self.max_stems_to_fetch - self.stems_fetched);
        if stems_remaining < self.max_batch_size {
            stems_remaining
        } else {
            self.max_batch_size as int
        }
    }

    /// The query for the next batch of rows.
    pub open spec fn next_query_text(&self) -> Seq<char> {
        "SELECT CAST(rowid AS TEXT), pāli1 FROM '_stems' order by rowid LIMIT "@ + decimal(
            self.stems_fetched as int,
        ) + ","@ + decimal(self.batch_size())
    }

    /// Writes the query for the next batch of rows of the table of stems.
    pub fn next_query(&self) -> (r: String)
        ensures
            r@ == self.next_query_text(),
    {
        let stems_remaining = clamp_to_i64(
            self.max_stems_to_fetch as i128 - self.stems_fetched as i128,
        );
        let batch_size = if stems_remaining < self.max_batch_size {
            stems_remaining
        } else {
            self.max_batch_size
        };
        let mut sql =
            "SELECT CAST(rowid AS TEXT), pāli1 FROM '_stems' order by rowid LIMIT ".to_owned();
        sql.append(i64_to_string(self.stems_fetched).as_str());
        sql.append(",");
        sql.append(i64_to_string(batch_size).as_str());
        sql
    }

    /// Takes the reply to the last query. A reply with one table of one row
    /// or more, while head words are left to fetch, gives the next batch, and
    /// the batch is counted. Any other reply ends the walk; a message in
    /// place of a reply is kept as the error, and so is a row that holds no
    /// number and head word.
    pub fn accept(&mut self, reply: Result<Vec<Vec<Vec<String>>>, String>) -> (r: Option<
        Vec<StemInfo>,
    >)
        ensures
            final(self).max_stems_to_fetch == old(self).max_stems_to_fetch,
            final(self).max_batch_size == old(self).max_batch_size,
            match tables_view(reply) {
                Err(e) => {
                    &&& r is None
                    &&& final(self).error is Some
                    &&& final(self).error->0@ == e
                    &&& final(self).stems_fetched == old(self).stems_fetched
                    &&& final(self).batches_fetched == old(self).batches_fetched
                },
                Ok(tables) => if tables.len() == 1 && tables[0].len() > 0 && old(self).stems_fetched
                    < old(self).max_stems_to_fetch {
                    match stems_of_rows(tables[0]) {
                        Some(stems) => {
                            &&& r is Some
                            &&& stems_view(r->0@) == stems
                            &&& final(self).error == old(self).error
                            &&& final(self).stems_fetched == clamp_i64(
                                old(self).stems_fetched + stems.len(),
                            )
                            &&& final(self).batches_fetched == clamp_i64(
                                old(self).batches_fetched + 1,
                            )
                        },
                        None => {
                            &&& r is None
                            &&& final(self).error is Some
                            &&& final(self).error->0@ == corrupt_row_message()
                            &&& final(self).stems_fetched == old(self).stems_fetched
                            &&& final(self).batches_fetched == old(self).batches_fetched
                        },
                    }
                } else {
                    &&& r is None
                    &&& final(self).error == old(self).error
                    &&& final(self).stems_fetched == old(self).stems_fetched
                    &&& final(self).batches_fetched == old(self).batches_fetched
                },
            },
    {
        let curr_batch = match reply {
            Ok(curr_batch) => curr_batch,
            Err(x) => {
                self.error = Some(x);
                return None;
            },
        };
        proof {
            assert(curr_batch.deep_view().len() == curr_batch.len());
            if curr_batch.len() == 1 {
                assert(curr_batch.deep_view()[0] == curr_batch[0].deep_view());
                assert(curr_batch[0].deep_view().len() == curr_batch[0].len());
            }
        }
        if curr_batch.len() == 1 && curr_batch[0].len() > 0 && self.stems_fetched
            < self.max_stems_to_fetch {
            match read_stems(&curr_batch[0]) {
                Some(stem_infos) => {
                    self.batches_fetched = clamp_to_i64(self.batches_fetched as i128 + 1);
                    self.stems_fetched = clamp_to_i64(
                        self.stems_fetched as i128 + stem_infos.len() as i128,
                    );
                    assert(stems_view(stem_infos@).len() == stem_infos.len());
                    Some(stem_infos)
                },
                None => {
                    self.error = Some("rowid must be i64. check for db corruption.".to_owned());
                    None
                },
            }
        } else {
            None
        }
    }
}

} // verus!
