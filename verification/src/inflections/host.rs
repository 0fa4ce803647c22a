use vstd::prelude::*;

verus! {

/// The tables that a reply to one or more queries holds, as the JSON text of
/// the reply gives them, or the reason why the text gives none.
pub uninterp spec fn json_tables(text: Seq<char>) -> Result<Seq<Seq<Seq<Seq<char>>>>, Seq<char>>;

/// `serde_json::from_str`, asked for a list of tables, each a list of rows,
/// each a list of cells: the tables that the text holds, or the parser's
/// message where the text is no such list.
#[verifier::external_body]
fn parse_tables(text: &str) -> (r: Result<Vec<Vec<Vec<String>>>, String>)
    ensures
        match r {
            Ok(tables) => json_tables(text@) == Ok::<Seq<Seq<Seq<Seq<char>>>>, Seq<char>>(
                tables.deep_view(),
            ),
            Err(e) => json_tables(text@) == Err::<Seq<Seq<Seq<Seq<char>>>>, Seq<char>>(e@),
        },
{
    serde_json::from_str(text).map_err(|e| e.to_string())
}

/// What the inflection code needs from the program that hosts it: its
/// settings, a transliterator, a database and a place for warnings.
pub trait PlsInflectionsHost {
    fn get_locale(&self) -> String;

    fn get_version(&self) -> String;

    fn get_url(&self) -> String;

    fn transliterate(&self, s: &str) -> Result<String, String>;

    fn exec_sql_query_core(&self, sql: &str) -> Result<String, String>;

    fn log_warning(&self, msg: &str);
}

/// What a reply of the host's database holds: its tables where the host
/// answered with JSON text that lists tables, the host's or the parser's
/// message otherwise.
pub open spec fn tables_of_reply(reply: Result<String, String>) -> Result<
    Seq<Seq<Seq<Seq<char>>>>,
    Seq<char>,
> {
    match reply {
        Ok(text) => json_tables(text@),
        Err(e) => Err(e@),
    }
}

/// Reads the reply of the host's database as tables.
pub fn read_reply(reply: Result<String, String>) -> (r: Result<Vec<Vec<Vec<String>>>, String>)
    ensures
        match r {
            Ok(tables) => tables_of_reply(reply) == Ok::<Seq<Seq<Seq<Seq<char>>>>, Seq<char>>(
                tables.deep_view(),
            ),
            Err(e) => tables_of_reply(reply) == Err::<Seq<Seq<Seq<Seq<char>>>>, Seq<char>>(e@),
        },
{
    match reply {
        Ok(text) => parse_tables(text.as_str()),
        Err(e) => Err(e),
    }
}

/// Runs queries on the host's database and reads the reply as tables.
pub fn exec_sql_query<H: PlsInflectionsHost>(host: &H, sql: &str) -> (r: Result<
    Vec<Vec<Vec<String>>>,
    String,
>)
    ensures
        exists|reply: Result<String, String>|
            match r {
                Ok(tables) => #[trigger] tables_of_reply(reply) == Ok::<
                    Seq<Seq<Seq<Seq<char>>>>,
                    Seq<char>,
                >(tables.deep_view()),
                Err(e) => tables_of_reply(reply) == Err::<Seq<Seq<Seq<Seq<char>>>>, Seq<char>>(
                    e@,
                ),
            },
{
    let reply = host.exec_sql_query_core(sql);
    read_reply(reply)
}

} // verus!
