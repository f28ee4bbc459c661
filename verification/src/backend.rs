//! The server's side of notes and knots: which embeddings must be computed,
//! the transactions sent to the database to create notes and knots, and how
//! the database's answers are read.

use vstd::prelude::*;
use vstd::string::*;
use crate::decimal::{decimal, push_decimal};
use crate::schema::{Knot, SnippetData, SurrealRecord, knot_put};
use crate::graph::strs;
use crate::text::{cat, trim, trimmed};

verus! {

/// The answer to creating a note: its id and the ids of its snippets.
#[derive(Clone, Debug, PartialEq)]
pub struct NewNote {
    pub id: String,
    pub snippet_ids: Vec<String>,
}

/// A snippet of a note to create: new content, or an existing snippet named
/// by its table and id.
#[derive(Debug, PartialEq)]
pub enum SnippetDataOrId {
    Data(SnippetData),
    Id((String, String)),
}

/// How an embedding is computed.
#[derive(Clone, Copy, Debug, PartialEq, Eq, Structural)]
pub enum EmbedKind {
    /// Embed the text itself.
    Text,
    /// Embed the image at the path.
    Image,
    /// Transcribe the audio at the path, then embed the transcript.
    Transcript,
}

/// The embedding a new snippet still needs: none if it carries one;
/// otherwise its text, its image, or the transcript of its audio or video.
pub open spec fn embed_need(data: SnippetData) -> Option<(EmbedKind, Seq<char>)> {
    match data {
        SnippetData::AudioSnippet(s) => if s.embedding@.len() == 0 {
            Some((EmbedKind::Transcript, s.path@))
        } else {
            None
        },
        SnippetData::ImageSnippet(s) => if s.embedding@.len() == 0 {
            Some((EmbedKind::Image, s.path@))
        } else {
            None
        },
        SnippetData::TextSnippet(s) => if s.embedding@.len() == 0 {
            Some((EmbedKind::Text, s.content@))
        } else {
            None
        },
        SnippetData::VideoSnippet(s) => if s.embedding@.len() == 0 {
            Some((EmbedKind::Transcript, s.path@))
        } else {
            None
        },
    }
}

/// Which embedding a new snippet still needs, and of what.
pub fn embedding_job(data: &SnippetData) -> (job: Option<(EmbedKind, String)>)
    ensures
        match job {
            Some((k, s)) => embed_need(*data) == Some((k, s@)),
            None => embed_need(*data) is None,
        },
{
    match data {
        SnippetData::AudioSnippet(s) => if s.embedding.len() == 0 {
            Some((EmbedKind::Transcript, s.path.clone()))
        } else {
            None
        },
        SnippetData::ImageSnippet(s) => if s.embedding.len() == 0 {
            Some((EmbedKind::Image, s.path.clone()))
        } else {
            None
        },
        SnippetData::TextSnippet(s) => if s.embedding.len() == 0 {
            Some((EmbedKind::Text, s.content.clone()))
        } else {
            None
        },
        SnippetData::VideoSnippet(s) => if s.embedding.len() == 0 {
            Some((EmbedKind::Transcript, s.path.clone()))
        } else {
            None
        },
    }
}

/// How the embedding of an existing snippet is computed, by the table it is
/// stored in: text snippets are embedded, images too, audio and video are
/// transcribed first; any other table is refused with `unsupported snippet
/// table: {table}`.
pub open spec fn table_embed_kind(table: Seq<char>) -> Result<EmbedKind, Seq<char>> {
    if table == "text_snippet"@ {
        Ok(EmbedKind::Text)
    } else if table == "audio_snippet"@ {
        Ok(EmbedKind::Transcript)
    } else if table == "image_snippet"@ {
        Ok(EmbedKind::Image)
    } else if table == "video_snippet"@ {
        Ok(EmbedKind::Transcript)
    } else {
        Err("unsupported snippet table: "@ + table)
    }
}

fn str_eq(a: &String, b: &str) -> (r: bool)
    ensures
        r == (a@ == b@),
{
    *a == String::from_str(b)
}

/// How the embedding of an existing snippet in `table` is computed.
pub fn embed_kind_for_table(table: &String) -> (r: Result<EmbedKind, String>)
    ensures
        match r {
            Ok(k) => table_embed_kind(table@) == Ok::<EmbedKind, Seq<char>>(k),
            Err(e) => table_embed_kind(table@) == Err::<EmbedKind, Seq<char>>(e@),
        },
{
    if str_eq(table, "text_snippet") {
        Ok(EmbedKind::Text)
    } else if str_eq(table, "audio_snippet") {
        Ok(EmbedKind::Transcript)
    } else if str_eq(table, "image_snippet") {
        Ok(EmbedKind::Image)
    } else if str_eq(table, "video_snippet") {
        Ok(EmbedKind::Transcript)
    } else {
        Err(cat("unsupported snippet table: ", table.as_str()))
    }
}

/// The step that fills in the embedding of an existing snippet, given its
/// table, what reading it found (`None`: no such record; `Some(b)`: the
/// record, with `b` telling whether its embedding is still empty) and its
/// id: an unsupported table is refused first, then a missing record
/// (`snippet not found: {table}:{id}`); a record that has an embedding is
/// left as it is (`Ok(None)`), and one that has none gets the embedding of
/// its table's kind (`Ok(Some(kind))`).
pub open spec fn existing_snippet_outcome(
    table: Seq<char>,
    read: Option<bool>,
    id: Seq<char>,
) -> Result<Option<EmbedKind>, Seq<char>> {
    match table_embed_kind(table) {
        Err(e) => Err(e),
        Ok(kind) => match read {
            None => Err("snippet not found: "@ + table + ":"@ + id),
            Some(needs_embedding) => Ok(
                if needs_embedding {
                    Some(kind)
                } else {
                    None
                },
            ),
        },
    }
}

/// Decides what filling in the embedding of an existing snippet does (see
/// `existing_snippet_outcome`).
pub fn existing_snippet_step(table: &String, read: Option<bool>, id: &String) -> (r: Result<Option<EmbedKind>, String>)
    ensures
        match r {
            Ok(step) => existing_snippet_outcome(table@, read, id@) == Ok::<Option<EmbedKind>, Seq<char>>(step),
            Err(e) => existing_snippet_outcome(table@, read, id@) == Err::<Option<EmbedKind>, Seq<char>>(e@),
        },
{
    let kind = match embed_kind_for_table(table) {
        Ok(k) => k,
        Err(e) => return Err(e),
    };
    match read {
        None => {
            let mut msg = cat("snippet not found: ", table.as_str());
            msg.append(":");
            msg.append(id.as_str());
            Err(msg)
        },
        Some(needs_embedding) => if needs_embedding {
            Ok(Some(kind))
        } else {
            Ok(None)
        },
    }
}

/// The trimmed segments of a transcription that are not empty, in order.
pub open spec fn transcript_parts(segments: Seq<Seq<char>>) -> Seq<Seq<char>>
    decreases segments.len(),
{
    if segments.len() == 0 {
        Seq::empty()
    } else if trimmed(segments.last()).len() == 0 {
        transcript_parts(segments.drop_last())
    } else {
        transcript_parts(segments.drop_last()).push(trimmed(segments.last()))
    }
}

/// The parts joined, with `sep` between each two.
pub open spec fn joined(parts: Seq<Seq<char>>, sep: Seq<char>) -> Seq<char>
    decreases parts.len(),
{
    if parts.len() == 0 {
        Seq::empty()
    } else if parts.len() == 1 {
        parts[0]
    } else {
        joined(parts.drop_last(), sep) + sep + parts.last()
    }
}

/// The transcript of an audio snippet: its trimmed non-empty segments
/// joined by single spaces; refused when it trims to nothing.
pub open spec fn transcript_outcome(segments: Seq<Seq<char>>) -> Result<Seq<char>, Seq<char>> {
    let t = joined(transcript_parts(segments), " "@);
    if trimmed(t).len() == 0 {
        Err("audio transcription produced empty transcript"@)
    } else {
        Ok(t)
    }
}

/// Assembles the transcript that an audio or video snippet is embedded by.
pub fn transcript_text(segments: &[String]) -> (r: Result<String, String>)
    ensures
        match r {
            Ok(t) => transcript_outcome(strs(segments@)) == Ok::<Seq<char>, Seq<char>>(t@),
            Err(e) => transcript_outcome(strs(segments@)) == Err::<Seq<char>, Seq<char>>(e@),
        },
{
    let ghost v = strs(segments@);
    let n = segments.len();
    let mut out = String::new();
    let mut any = false;
    let mut k: usize = 0;
    while k < n
        invariant
            k <= n,
            any == (transcript_parts(v.take(k as int)).len() > 0),
            n == segments@.len(),
            v == strs(segments@),
            out@ == joined(transcript_parts(v.take(k as int)), " "@),
        decreases n - k,
    {
        let ghost before = transcript_parts(v.take(k as int));
        assert(v.take(k + 1).drop_last() =~= v.take(k as int));
        assert(v.take(k + 1).last() == segments@[k as int]@);
        let part = trim(segments[k].as_str());
        if part.unicode_len() > 0 {
            let ghost after = before.push(part@);
            assert(after.drop_last() =~= before);
            if any {
                out.append(" ");
            }
            out.append(part);
            any = true;
            assert(out@ == joined(after, " "@));
        }
        k = k + 1;
    }
    assert(v.take(n as int) =~= v);
    if trim(out.as_str()).unicode_len() == 0 {
        Err(String::from_str("audio transcription produced empty transcript"))
    } else {
        Ok(out)
    }
}

/// The first vector an embedding model returned; refused with `text
/// embedding returned no vectors` when there is none.
pub fn first_embedding<T>(mut vectors: Vec<T>) -> (r: Result<T, String>)
    ensures
        match r {
            Ok(v) => vectors@.len() > 0 && v == vectors@[0],
            Err(e) => vectors@.len() == 0 && e@ == "text embedding returned no vectors"@,
        },
{
    if vectors.len() == 0 {
        Err(String::from_str("text embedding returned no vectors"))
    } else {
        Ok(vectors.remove(0))
    }
}

/// What a deletion's answer means: the statement that deletes the record
/// returned nothing, so there was no such record (`{table}:{id}` not
/// found); any other answer is a success.
pub open spec fn deletion_outcome(deleted: Option<nat>, table: Seq<char>, id: Seq<char>) -> Result<(), Seq<char>> {
    match deleted {
        Some(n) => if n == 0 {
            Err(table + ":"@ + id)
        } else {
            Ok(())
        },
        None => Ok(()),
    }
}

/// Reads a deletion's answer, given how many records the deleting
/// statement returned (if it returned a list); an error names the missing
/// record as `{table}:{id}`.
pub fn deletion_result(deleted: Option<usize>, table: &str, id: &String) -> (r: Result<(), String>)
    ensures
        match r {
            Ok(()) => deletion_outcome(
                match deleted { Some(n) => Some(n as nat), None => None },
                table@,
                id@,
            ) == Ok::<(), Seq<char>>(()),
            Err(e) => deletion_outcome(
                match deleted { Some(n) => Some(n as nat), None => None },
                table@,
                id@,
            ) == Err::<(), Seq<char>>(e@),
        },
{
    match deleted {
        Some(n) => if n == 0 {
            let mut s = cat(table, ":");
            s.append(id.as_str());
            Err(s)
        } else {
            Ok(())
        },
        None => Ok(()),
    }
}

/// A value bound to a query parameter: a text, or the embedding of the
/// snippet at the given position of the note being created (computed by the
/// caller, as `f32` values).
#[derive(Clone, Debug, PartialEq)]
pub enum BindValue {
    Text(String),
    Embedding(usize),
}

/// One statement of a transaction, with the parameters it binds.
#[derive(Clone, Debug, PartialEq)]
pub struct Statement {
    pub text: String,
    pub bindings: Vec<(String, BindValue)>,
}

/// The mathematical value of a bound value.
pub enum BindView {
    Text(Seq<char>),
    Embedding(nat),
}

/// The mathematical value of a statement.
pub struct StatementView {
    pub text: Seq<char>,
    pub bindings: Seq<(Seq<char>, BindView)>,
}

pub open spec fn bind_view(b: BindValue) -> BindView {
    match b {
        BindValue::Text(s) => BindView::Text(s@),
        BindValue::Embedding(i) => BindView::Embedding(i as nat),
    }
}

impl View for Statement {
    type V = StatementView;

    open spec fn view(&self) -> StatementView {
        StatementView {
            text: self.text@,
            bindings: self.bindings@.map_values(|b: (String, BindValue)| (b.0@, bind_view(b.1))),
        }
    }
}

/// The views of a sequence of statements.
pub open spec fn statements_view(s: Seq<Statement>) -> Seq<StatementView> {
    s.map_values(|st: Statement| st@)
}

/// A statement with no parameter.
pub open spec fn plain(text: Seq<char>) -> StatementView {
    StatementView { text, bindings: Seq::empty() }
}

/// The table, field and value a new snippet is stored with.
pub open spec fn snippet_target(data: SnippetData) -> (Seq<char>, Seq<char>, Seq<char>) {
    match data {
        SnippetData::AudioSnippet(s) => ("audio_snippet"@, "path"@, s.path@),
        SnippetData::ImageSnippet(s) => ("image_snippet"@, "path"@, s.path@),
        SnippetData::TextSnippet(s) => ("text_snippet"@, "content"@, s.content@),
        SnippetData::VideoSnippet(s) => ("video_snippet"@, "path"@, s.path@),
    }
}

/// The statements that attach the `i`-th snippet to the note being created:
/// a new snippet is created (with its value and its embedding) and related;
/// an existing one is looked up, the transaction fails with `Snippet not
/// found: {table}:{id}` if it is missing, and it is related.
pub open spec fn snippet_statements(i: nat, snippet: SnippetDataOrId) -> Seq<StatementView> {
    let n = decimal(i);
    match snippet {
        SnippetDataOrId::Data(data) => {
            let (table, field, value) = snippet_target(data);
            seq![
                StatementView {
                    text: "LET $snippet"@ + n + " = CREATE ONLY "@ + table + " SET "@ + field + " = $value"@ + n
                        + ", embedding = $embedding"@ + n,
                    bindings: seq![
                        ("value"@ + n, BindView::Text(value)),
                        ("embedding"@ + n, BindView::Embedding(i)),
                    ],
                },
                plain("RELATE $note->contain->$snippet"@ + n),
            ]
        },
        SnippetDataOrId::Id((table, id)) => seq![
            StatementView {
                text: "LET $existing_snippet"@ + n + " = SELECT * FROM type::thing($table"@ + n + ", $id"@ + n + ")"@,
                bindings: seq![("table"@ + n, BindView::Text(table@)), ("id"@ + n, BindView::Text(id@))],
            },
            plain(
                "IF array::len($existing_snippet"@ + n + ") == 0 { THROW 'Snippet not found: ' + $table"@ + n
                    + " + ':' + $id"@ + n + " }"@,
            ),
            plain("RELATE $note->contain->type::thing($table"@ + n + ", $id"@ + n + ")"@),
        ],
    }
}

/// The statements of the first `k` snippets.
pub open spec fn snippets_statements(snippets: Seq<SnippetDataOrId>, k: nat) -> Seq<StatementView>
    decreases k,
{
    if k == 0 {
        Seq::empty()
    } else {
        snippets_statements(snippets, (k - 1) as nat) + snippet_statements((k - 1) as nat, snippets[k - 1])
    }
}

/// The transaction that creates a note with the given snippets and answers
/// with the note's id and its snippets' ids.
pub open spec fn create_note_spec(snippets: Seq<SnippetDataOrId>) -> Seq<StatementView> {
    seq![plain("BEGIN"@), plain("LET $note = CREATE ONLY note"@)] + snippets_statements(
        snippets,
        snippets.len(),
    ) + seq![
        plain("LET $note_id = record::id($note.id)"@),
        plain("LET $snippet_ids = (SELECT VALUE record::id(out.id) FROM $note->contain)"@),
        plain("RETURN { id: $note_id, snippet_ids: $snippet_ids }"@),
        plain("COMMIT"@),
    ]
}

fn plain_statement(text: &str) -> (st: Statement)
    ensures
        st@ == plain(text@),
{
    let st = Statement { text: String::from_str(text), bindings: Vec::new() };
    assert(st@.bindings =~= Seq::<(Seq<char>, BindView)>::empty());
    st
}

fn text_with_index(a: &str, i: u64, b: &str) -> (s: String)
    ensures
        s@ == a@ + decimal(i as nat) + b@,
{
    let mut s = String::from_str(a);
    push_decimal(&mut s, i);
    s.append(b);
    s
}

fn snippet_target_exec(data: &SnippetData) -> (t: (&'static str, &'static str, &String))
    ensures
        snippet_target(*data) == (t.0@, t.1@, t.2@),
{
    match data {
        SnippetData::AudioSnippet(s) => ("audio_snippet", "path", &s.path),
        SnippetData::ImageSnippet(s) => ("image_snippet", "path", &s.path),
        SnippetData::TextSnippet(s) => ("text_snippet", "content", &s.content),
        SnippetData::VideoSnippet(s) => ("video_snippet", "path", &s.path),
    }
}

fn push_snippet_statements(out: &mut Vec<Statement>, i: usize, snippet: &SnippetDataOrId)
    ensures
        statements_view(final(out)@) == statements_view(old(out)@) + snippet_statements(i as nat, *snippet),
{
    let k = i as u64;
    let ghost n = decimal(i as nat);
    let ghost before = out@;
    match snippet {
        SnippetDataOrId::Data(data) => {
            let (table, field, value) = snippet_target_exec(data);
            let mut text = text_with_index("LET $snippet", k, " = CREATE ONLY ");
            text.append(table);
            text.append(" SET ");
            text.append(field);
            let tail = text_with_index(" = $value", k, ", embedding = $embedding");
            text.append(tail.as_str());
            push_decimal(&mut text, k);
            let mut bindings: Vec<(String, BindValue)> = Vec::new();
            bindings.push((text_with_index("value", k, ""), BindValue::Text(value.clone())));
            bindings.push((text_with_index("embedding", k, ""), BindValue::Embedding(i)));
            let first = Statement { text, bindings };
            let relate = Statement { text: text_with_index("RELATE $note->contain->$snippet", k, ""), bindings: Vec::new() };
            proof {
                reveal_strlit("");
            }
            let ghost want = snippet_statements(i as nat, *snippet);
            assert(""@ == Seq::<char>::empty());
            assert(first@.text =~= want[0].text);
            assert(first@.bindings[0].0 =~= want[0].bindings[0].0);
            assert(first@.bindings[1].0 =~= want[0].bindings[1].0);
            assert(first@ =~= want[0]) by {
                assert(first@.bindings =~= want[0].bindings);
            }
            assert(relate@ =~= snippet_statements(i as nat, *snippet)[1]) by {
                assert(relate@.bindings =~= Seq::<(Seq<char>, BindView)>::empty());
            }
            out.push(first);
            out.push(relate);
            assert(statements_view(out@) =~= statements_view(before) + snippet_statements(i as nat, *snippet));
        },
        SnippetDataOrId::Id((table, id)) => {
            let mut text = text_with_index("LET $existing_snippet", k, " = SELECT * FROM type::thing($table");
            let tail = text_with_index("", k, ", $id");
            text.append(tail.as_str());
            let tail2 = text_with_index("", k, ")");
            text.append(tail2.as_str());
            let mut bindings: Vec<(String, BindValue)> = Vec::new();
            bindings.push((text_with_index("table", k, ""), BindValue::Text(table.clone())));
            bindings.push((text_with_index("id", k, ""), BindValue::Text(id.clone())));
            let lookup = Statement { text, bindings };
            let mut check = text_with_index("IF array::len($existing_snippet", k, ") == 0 { THROW 'Snippet not found: ' + $table");
            let c2 = text_with_index("", k, " + ':' + $id");
            check.append(c2.as_str());
            let c3 = text_with_index("", k, " }");
            check.append(c3.as_str());
            let guard = Statement { text: check, bindings: Vec::new() };
            let mut rel = text_with_index("RELATE $note->contain->type::thing($table", k, ", $id");
            let r2 = text_with_index("", k, ")");
            rel.append(r2.as_str());
            let relate = Statement { text: rel, bindings: Vec::new() };
            proof {
                reveal_strlit("");
            }
            let ghost want = snippet_statements(i as nat, *snippet);
            assert(lookup@ =~= want[0]) by {
                assert(lookup@.text =~= want[0].text);
                assert(lookup@.bindings =~= want[0].bindings);
            }
            assert(guard@ =~= want[1]) by {
                assert(guard@.text =~= want[1].text);
                assert(guard@.bindings =~= Seq::<(Seq<char>, BindView)>::empty());
            }
            assert(relate@ =~= want[2]) by {
                assert(relate@.text =~= want[2].text);
                assert(relate@.bindings =~= Seq::<(Seq<char>, BindView)>::empty());
            }
            out.push(lookup);
            out.push(guard);
            out.push(relate);
            assert(statements_view(out@) =~= statements_view(before) + want);
        },
    }
}

/// The statements of the transaction that creates a note with the given
/// snippets (see `create_note_spec`).
pub fn create_note_statements(snippets: &[SnippetDataOrId]) -> (plan: Vec<Statement>)
    ensures
        statements_view(plan@) == create_note_spec(snippets@),
{
    let mut plan: Vec<Statement> = Vec::new();
    plan.push(plain_statement("BEGIN"));
    plan.push(plain_statement("LET $note = CREATE ONLY note"));
    let ghost head = statements_view(plan@);
    assert(head =~= seq![plain("BEGIN"@), plain("LET $note = CREATE ONLY note"@)]);
    let n = snippets.len();
    let mut i: usize = 0;
    while i < n
        invariant
            i <= n,
            n == snippets@.len(),
            statements_view(plan@) == head + snippets_statements(snippets@, i as nat),
        decreases n - i,
    {
        push_snippet_statements(&mut plan, i, &snippets[i]);
        i = i + 1;
    }
    let ghost body = statements_view(plan@);
    plan.push(plain_statement("LET $note_id = record::id($note.id)"));
    plan.push(plain_statement("LET $snippet_ids = (SELECT VALUE record::id(out.id) FROM $note->contain)"));
    plan.push(plain_statement("RETURN { id: $note_id, snippet_ids: $snippet_ids }"));
    plan.push(plain_statement("COMMIT"));
    assert(statements_view(plan@) =~= create_note_spec(snippets@));
    plan
}

/// Two statements about the `i`-th id of a list: a `LET` that binds the id
/// (text `a{i}b{i}c`, parameter `d{i}`), then a statement `e{i}f{i}g` (or
/// `e{i}f` when the index appears once).
pub open spec fn id_pair(
    a: Seq<char>,
    b: Seq<char>,
    c: Seq<char>,
    d: Seq<char>,
    e: Seq<char>,
    f: Seq<char>,
    g: Seq<char>,
    twice: bool,
    i: nat,
    id: Seq<char>,
) -> Seq<StatementView> {
    let n = decimal(i);
    seq![
        StatementView { text: a + n + b + n + c, bindings: seq![(d + n, BindView::Text(id))] },
        plain(
            if twice {
                e + n + f + n + g
            } else {
                e + n + f
            },
        ),
    ]
}

/// The pairs of statements of the first `k` ids.
pub open spec fn id_rows(
    a: Seq<char>,
    b: Seq<char>,
    c: Seq<char>,
    d: Seq<char>,
    e: Seq<char>,
    f: Seq<char>,
    g: Seq<char>,
    twice: bool,
    ids: Seq<Seq<char>>,
    k: nat,
) -> Seq<StatementView>
    decreases k,
{
    if k == 0 {
        Seq::empty()
    } else {
        id_rows(a, b, c, d, e, f, g, twice, ids, (k - 1) as nat) + id_pair(
            a,
            b,
            c,
            d,
            e,
            f,
            g,
            twice,
            (k - 1) as nat,
            ids[k - 1],
        )
    }
}

proof fn lemma_id_rows_len(
    a: Seq<char>,
    b: Seq<char>,
    c: Seq<char>,
    d: Seq<char>,
    e: Seq<char>,
    f: Seq<char>,
    g: Seq<char>,
    twice: bool,
    ids: Seq<Seq<char>>,
    k: nat,
)
    ensures
        id_rows(a, b, c, d, e, f, g, twice, ids, k).len() == 2 * k,
    decreases k,
{
    if k > 0 {
        lemma_id_rows_len(a, b, c, d, e, f, g, twice, ids, (k - 1) as nat);
    }
}

fn push_id_rows(
    out: &mut Vec<Statement>,
    ids: &[String],
    a: &str,
    b: &str,
    c: &str,
    d: &str,
    e: &str,
    f: &str,
    g: &str,
    twice: bool,
)
    ensures
        statements_view(final(out)@) == statements_view(old(out)@) + id_rows(
            a@,
            b@,
            c@,
            d@,
            e@,
            f@,
            g@,
            twice,
            crate::graph::strs(ids@),
            ids@.len(),
        ),
{
    let ghost start = statements_view(out@);
    let ghost v = crate::graph::strs(ids@);
    let n = ids.len();
    let mut i: usize = 0;
    while i < n
        invariant
            i <= n,
            n == ids@.len(),
            v == crate::graph::strs(ids@),
            statements_view(out@) == start + id_rows(a@, b@, c@, d@, e@, f@, g@, twice, v, i as nat),
        decreases n - i,
    {
        let k = i as u64;
        let ghost before = statements_view(out@);
        let mut text = text_with_index(a, k, b);
        push_decimal(&mut text, k);
        text.append(c);
        let mut bindings: Vec<(String, BindValue)> = Vec::new();
        let mut name = String::from_str(d);
        push_decimal(&mut name, k);
        bindings.push((name, BindValue::Text(ids[i].clone())));
        let first = Statement { text, bindings };
        let mut second_text = text_with_index(e, k, f);
        if twice {
            push_decimal(&mut second_text, k);
            second_text.append(g);
        }
        let second = Statement { text: second_text, bindings: Vec::new() };
        let ghost want = id_pair(a@, b@, c@, d@, e@, f@, g@, twice, i as nat, v[i as int]);
        assert(first@.text =~= want[0].text);
        assert(first@ =~= want[0]) by {
            assert(first@.bindings =~= want[0].bindings);
        }
        assert(second@.text =~= want[1].text);
        assert(second@ =~= want[1]) by {
            assert(second@.bindings =~= Seq::<(Seq<char>, BindView)>::empty());
        }
        out.push(first);
        out.push(second);
        assert(statements_view(out@) =~= before + want);
        i = i + 1;
    }
}

/// The query that reads back the created knot with its notes and knots.
pub open spec fn select_knot_text() -> Seq<char> {
    "SELECT *,
                <-converge<-note AS notes,
                <-converge<-knot AS knots
            FROM $knot FETCH notes, knots"@
}

/// The transaction that creates a knot with a label and an intent, fails if
/// a given note or knot does not exist, relates each given note and knot to
/// the new knot, and reads the knot back.
pub open spec fn create_knot_spec(
    label: Seq<char>,
    intent: Seq<char>,
    note_ids: Seq<Seq<char>>,
    knot_ids: Seq<Seq<char>>,
) -> Seq<StatementView> {
    seq![
        plain("BEGIN"@),
        StatementView {
            text: "LET $knot = CREATE knot SET label = $label, intent = $intent"@,
            bindings: seq![("label"@, BindView::Text(label)), ("intent"@, BindView::Text(intent))],
        },
    ] + id_rows(
        "LET $note"@,
        " = SELECT * FROM type::thing('note', $note_id"@,
        ")"@,
        "note_id"@,
        "IF array::len($note"@,
        ") == 0 { THROW 'Note not found: ' + $note_id"@,
        " }"@,
        true,
        note_ids,
        note_ids.len(),
    ) + id_rows(
        "LET $existing_knot"@,
        " = SELECT * FROM type::thing('knot', $knot_id"@,
        ")"@,
        "knot_id"@,
        "IF array::len($existing_knot"@,
        ") == 0 { THROW 'Knot not found: ' + $knot_id"@,
        " }"@,
        true,
        knot_ids,
        knot_ids.len(),
    ) + id_rows(
        "LET $note_record"@,
        " = type::thing('note', $note_id"@,
        ")"@,
        "note_id"@,
        "RELATE $note_record"@,
        "->converge->$knot"@,
        ""@,
        false,
        note_ids,
        note_ids.len(),
    ) + id_rows(
        "LET $knot_record"@,
        " = type::thing('knot', $knot_id"@,
        ")"@,
        "knot_id"@,
        "RELATE $knot_record"@,
        "->converge->$knot"@,
        ""@,
        false,
        knot_ids,
        knot_ids.len(),
    ) + seq![plain(select_knot_text()), plain("COMMIT"@)]
}

/// The statements of the transaction that creates a knot (see
/// `create_knot_spec`), and the position of the answer that holds the
/// created knot among the statements' answers (`BEGIN` gives none): it is
/// the answer of the `SELECT`.
pub fn create_knot_statements(label: String, intent: String, note_ids: &[String], knot_ids: &[String]) -> (plan: (
    Vec<Statement>,
    usize,
))
    requires
        4 * (note_ids@.len() + knot_ids@.len()) + 1 <= usize::MAX,
    ensures
        statements_view(plan.0@) == create_knot_spec(
            label@,
            intent@,
            crate::graph::strs(note_ids@),
            crate::graph::strs(knot_ids@),
        ),
        plan.1 == 1 + 4 * (note_ids@.len() + knot_ids@.len()),
        plan.0@.len() == plan.1 + 3,
        plan.0@[plan.1 + 1]@ == plain(select_knot_text()),
{
    let ghost lv = label@;
    let ghost iv = intent@;
    let mut plan: Vec<Statement> = Vec::new();
    plan.push(plain_statement("BEGIN"));
    let mut bindings: Vec<(String, BindValue)> = Vec::new();
    bindings.push((String::from_str("label"), BindValue::Text(label)));
    bindings.push((String::from_str("intent"), BindValue::Text(intent)));
    let create = Statement {
        text: String::from_str("LET $knot = CREATE knot SET label = $label, intent = $intent"),
        bindings,
    };
    assert(create@.bindings =~= seq![("label"@, BindView::Text(lv)), ("intent"@, BindView::Text(iv))]);
    plan.push(create);
    let ghost s0 = statements_view(plan@);
    assert(s0 =~= seq![
        plain("BEGIN"@),
        StatementView {
            text: "LET $knot = CREATE knot SET label = $label, intent = $intent"@,
            bindings: seq![("label"@, BindView::Text(lv)), ("intent"@, BindView::Text(iv))],
        },
    ]);
    let mut statement_index: usize = 1;
    push_id_rows(
        &mut plan,
        note_ids,
        "LET $note",
        " = SELECT * FROM type::thing('note', $note_id",
        ")",
        "note_id",
        "IF array::len($note",
        ") == 0 { THROW 'Note not found: ' + $note_id",
        " }",
        true,
    );
    statement_index = statement_index + 2 * note_ids.len();
    let ghost s1 = statements_view(plan@);
    push_id_rows(
        &mut plan,
        knot_ids,
        "LET $existing_knot",
        " = SELECT * FROM type::thing('knot', $knot_id",
        ")",
        "knot_id",
        "IF array::len($existing_knot",
        ") == 0 { THROW 'Knot not found: ' + $knot_id",
        " }",
        true,
    );
    statement_index = statement_index + 2 * knot_ids.len();
    let ghost s2 = statements_view(plan@);
    push_id_rows(
        &mut plan,
        note_ids,
        "LET $note_record",
        " = type::thing('note', $note_id",
        ")",
        "note_id",
        "RELATE $note_record",
        "->converge->$knot",
        "",
        false,
    );
    statement_index = statement_index + 2 * note_ids.len();
    let ghost s3 = statements_view(plan@);
    push_id_rows(
        &mut plan,
        knot_ids,
        "LET $knot_record",
        " = type::thing('knot', $knot_id",
        ")",
        "knot_id",
        "RELATE $knot_record",
        "->converge->$knot",
        "",
        false,
    );
    statement_index = statement_index + 2 * knot_ids.len();
    let ghost s4 = statements_view(plan@);
    let select_index = statement_index;
    plan.push(
        plain_statement(
            "SELECT *,
                <-converge<-note AS notes,
                <-converge<-knot AS knots
            FROM $knot FETCH notes, knots",
        ),
    );
    plan.push(plain_statement("COMMIT"));
    let ghost nv = crate::graph::strs(note_ids@);
    let ghost kv = crate::graph::strs(knot_ids@);
    proof {
        lemma_id_rows_len(
            "LET $note"@,
            " = SELECT * FROM type::thing('note', $note_id"@,
            ")"@,
            "note_id"@,
            "IF array::len($note"@,
            ") == 0 { THROW 'Note not found: ' + $note_id"@,
            " }"@,
            true,
            nv,
            nv.len(),
        );
        lemma_id_rows_len(
            "LET $existing_knot"@,
            " = SELECT * FROM type::thing('knot', $knot_id"@,
            ")"@,
            "knot_id"@,
            "IF array::len($existing_knot"@,
            ") == 0 { THROW 'Knot not found: ' + $knot_id"@,
            " }"@,
            true,
            kv,
            kv.len(),
        );
        lemma_id_rows_len(
            "LET $note_record"@,
            " = type::thing('note', $note_id"@,
            ")"@,
            "note_id"@,
            "RELATE $note_record"@,
            "->converge->$knot"@,
            ""@,
            false,
            nv,
            nv.len(),
        );
        lemma_id_rows_len(
            "LET $knot_record"@,
            " = type::thing('knot', $knot_id"@,
            ")"@,
            "knot_id"@,
            "RELATE $knot_record"@,
            "->converge->$knot"@,
            ""@,
            false,
            kv,
            kv.len(),
        );
    }
    assert(statements_view(plan@) =~= s4 + seq![plain(select_knot_text()), plain("COMMIT"@)]);
    assert(statements_view(plan@) =~= create_knot_spec(lv, iv, nv, kv));
    assert(statements_view(plan@)[select_index + 1] == plain(select_knot_text()));
    (plan, select_index)
}

/// Why the database's answer to a transaction is refused.
#[derive(Clone, Debug, PartialEq)]
pub enum StoreError {
    /// The transaction gave no answer.
    TxFailure,
    /// The named record does not exist.
    NotFound(String),
}

/// A step taken before the transaction that creates a note.
#[derive(Clone, Debug, PartialEq)]
pub enum NotePrep {
    /// Fill in the embedding of the existing snippet `table:id` (see
    /// `existing_snippet_step`).
    EnsureExisting(String, String),
    /// Compute the embedding of the new snippet at the given position, of the
    /// given kind, from its content or path.
    Embed(usize, EmbedKind, String),
}

/// The mathematical value of a preparation step.
pub enum NotePrepView {
    EnsureExisting(Seq<char>, Seq<char>),
    Embed(nat, EmbedKind, Seq<char>),
}

pub open spec fn prep_view(p: NotePrep) -> NotePrepView {
    match p {
        NotePrep::EnsureExisting(t, i) => NotePrepView::EnsureExisting(t@, i@),
        NotePrep::Embed(i, k, s) => NotePrepView::Embed(i as nat, k, s@),
    }
}

/// The views of a sequence of preparation steps.
pub open spec fn preps_view(s: Seq<NotePrep>) -> Seq<NotePrepView> {
    s.map_values(|p: NotePrep| prep_view(p))
}

/// One step per existing snippet among the first `n`, in order.
pub open spec fn existing_preps(snippets: Seq<SnippetDataOrId>, n: nat) -> Seq<NotePrepView>
    decreases n,
{
    if n == 0 {
        Seq::empty()
    } else {
        existing_preps(snippets, (n - 1) as nat) + match snippets[n - 1] {
            SnippetDataOrId::Id((t, i)) => seq![NotePrepView::EnsureExisting(t@, i@)],
            SnippetDataOrId::Data(_) => Seq::empty(),
        }
    }
}

/// One step per new snippet among the first `n` that still needs an
/// embedding, in order.
pub open spec fn embed_preps(snippets: Seq<SnippetDataOrId>, n: nat) -> Seq<NotePrepView>
    decreases n,
{
    if n == 0 {
        Seq::empty()
    } else {
        embed_preps(snippets, (n - 1) as nat) + match snippets[n - 1] {
            SnippetDataOrId::Data(d) => match embed_need(d) {
                Some((k, src)) => seq![NotePrepView::Embed((n - 1) as nat, k, src)],
                None => Seq::empty(),
            },
            SnippetDataOrId::Id(_) => Seq::empty(),
        }
    }
}

/// What creating a note does before its transaction runs: first the
/// embeddings of the existing snippets are filled in, in order; then the
/// embeddings the new snippets lack are computed, in order.
pub open spec fn note_preparation_spec(snippets: Seq<SnippetDataOrId>) -> Seq<NotePrepView> {
    existing_preps(snippets, snippets.len()) + embed_preps(snippets, snippets.len())
}

/// The steps taken before the transaction that creates a note (see
/// `note_preparation_spec`).
pub fn note_preparation(snippets: &[SnippetDataOrId]) -> (preps: Vec<NotePrep>)
    ensures
        preps_view(preps@) == note_preparation_spec(snippets@),
{
    let n = snippets.len();
    let mut preps: Vec<NotePrep> = Vec::new();
    let mut i: usize = 0;
    while i < n
        invariant
            i <= n,
            n == snippets@.len(),
            preps_view(preps@) == existing_preps(snippets@, i as nat),
        decreases n - i,
    {
        let ghost before = preps@;
        match &snippets[i] {
            SnippetDataOrId::Id((t, id)) => {
                preps.push(NotePrep::EnsureExisting(t.clone(), id.clone()));
            },
            SnippetDataOrId::Data(_) => {},
        }
        assert(preps_view(preps@) =~= existing_preps(snippets@, (i + 1) as nat));
        i = i + 1;
    }
    let ghost head = preps_view(preps@);
    let mut j: usize = 0;
    while j < n
        invariant
            j <= n,
            n == snippets@.len(),
            head == existing_preps(snippets@, n as nat),
            preps_view(preps@) == head + embed_preps(snippets@, j as nat),
        decreases n - j,
    {
        let ghost before = preps@;
        match &snippets[j] {
            SnippetDataOrId::Data(d) => {
                assert(snippets@[j as int] == SnippetDataOrId::Data(*d));
                match embedding_job(d) {
                    Some((k, src)) => {
                        assert(embed_need(*d) == Some((k, src@)));
                        preps.push(NotePrep::Embed(j, k, src));
                        assert(preps_view(preps@) =~= preps_view(before).push(NotePrepView::Embed(j as nat, k, src@)));
                    },
                    None => {
                        assert(embed_need(*d) is None);
                    },
                }
            },
            SnippetDataOrId::Id(_) => {},
        }
        assert(preps_view(preps@) =~= head + embed_preps(snippets@, (j + 1) as nat));
        j = j + 1;
    }
    preps
}

/// Reads the answer of the transaction that creates a note (its first
/// answer): the new note, or a transaction failure when there is none.
pub fn created_note(answer: Option<NewNote>) -> (r: Result<NewNote, StoreError>)
    ensures
        match answer {
            Some(n) => r == Ok::<NewNote, StoreError>(n),
            None => r == Err::<NewNote, StoreError>(StoreError::TxFailure),
        },
{
    match answer {
        Some(n) => Ok(n),
        None => Err(StoreError::TxFailure),
    }
}

/// Reads the answer of the `SELECT` that ends the creation of a knot: its
/// first knot, with the keys of its records copied into their `id_`
/// fields; `NotFound("knot")` when there is none.
pub fn created_knot(knots: Vec<Knot>) -> (r: Result<Knot, StoreError>)
    ensures
        match r {
            Ok(k) => knots@.len() > 0 && knot_put(knots@[0], k),
            Err(e) => knots@.len() == 0 && (e matches StoreError::NotFound(name) && name@ == "knot"@),
        },
{
    let mut knots = knots;
    if knots.len() == 0 {
        Err(StoreError::NotFound(String::from_str("knot")))
    } else {
        let mut k = knots.remove(0);
        k.put_id();
        Ok(k)
    }
}

fn bound_statement(text: &str, name: &str, value: &String) -> (st: Statement)
    ensures
        st@ == (StatementView { text: text@, bindings: seq![(name@, BindView::Text(value@))] }),
{
    let mut bindings: Vec<(String, BindValue)> = Vec::new();
    bindings.push((String::from_str(name), BindValue::Text(value.clone())));
    let st = Statement { text: String::from_str(text), bindings };
    assert(st@.bindings =~= seq![(name@, BindView::Text(value@))]);
    st
}

/// A statement that binds the id `id` to `$id`.
pub open spec fn with_id(text: Seq<char>, id: Seq<char>) -> StatementView {
    StatementView { text, bindings: seq![("id"@, BindView::Text(id))] }
}

/// The transaction that deletes the note `id` and its links to its
/// snippets.
pub open spec fn delete_note_spec(id: Seq<char>) -> Seq<StatementView> {
    seq![
        plain("BEGIN"@),
        with_id("DELETE FROM contain WHERE in = type::thing('note', $id)"@, id),
        with_id("DELETE FROM note WHERE id = type::thing('note', $id)"@, id),
        plain("COMMIT"@),
    ]
}

/// The statements that delete a note (see `delete_note_spec`), and the
/// position of the answer read to learn whether a note was deleted (see
/// `deletion_result`): 2.
pub fn delete_note_statements(id: &String) -> (plan: (Vec<Statement>, usize))
    ensures
        statements_view(plan.0@) == delete_note_spec(id@),
        plan.1 == 2,
{
    let mut plan: Vec<Statement> = Vec::new();
    plan.push(plain_statement("BEGIN"));
    plan.push(bound_statement("DELETE FROM contain WHERE in = type::thing('note', $id)", "id", id));
    plan.push(bound_statement("DELETE FROM note WHERE id = type::thing('note', $id)", "id", id));
    plan.push(plain_statement("COMMIT"));
    assert(statements_view(plan@) =~= delete_note_spec(id@));
    (plan, 2)
}

/// The transaction that deletes the knot `id`: with `recursive`, also the
/// notes (with their snippet links) and the knots that converge into it;
/// otherwise only the knot and the links into it.
pub open spec fn delete_knot_spec(id: Seq<char>, recursive: bool) -> Seq<StatementView> {
    if recursive {
        seq![
            plain("BEGIN"@),
            with_id("LET $knot_to_delete = type::thing('knot', $id)"@, id),
            plain(
                "LET $converging_notes = SELECT VALUE in FROM converge WHERE out = $knot_to_delete AND type::is::record(in, 'note')"@,
            ),
            plain(
                "LET $converging_knots = SELECT VALUE in FROM converge WHERE out = $knot_to_delete AND type::is::record(in, 'knot')"@,
            ),
            plain("FOR $note IN $converging_notes { DELETE FROM contain WHERE in = $note; DELETE $note }"@),
            plain("FOR $knot IN $converging_knots { DELETE FROM converge WHERE out = $knot; DELETE $knot }"@),
            plain("DELETE FROM converge WHERE out = $knot_to_delete"@),
            plain("DELETE $knot_to_delete"@),
            plain("COMMIT"@),
        ]
    } else {
        seq![
            plain("BEGIN"@),
            with_id("DELETE FROM converge WHERE out = type::thing('knot', $id)"@, id),
            with_id("DELETE FROM knot WHERE id = type::thing('knot', $id)"@, id),
            plain("COMMIT"@),
        ]
    }
}

/// The statements that delete a knot (see `delete_knot_spec`), and the
/// position of the answer read to learn whether the knot was deleted (see
/// `deletion_result`): 7 for a recursive deletion, 2 otherwise.
pub fn delete_knot_statements(id: &String, recursive: bool) -> (plan: (Vec<Statement>, usize))
    ensures
        statements_view(plan.0@) == delete_knot_spec(id@, recursive),
        plan.1 == if recursive {
            7usize
        } else {
            2usize
        },
{
    let mut plan: Vec<Statement> = Vec::new();
    plan.push(plain_statement("BEGIN"));
    if recursive {
        plan.push(bound_statement("LET $knot_to_delete = type::thing('knot', $id)", "id", id));
        plan.push(
            plain_statement(
                "LET $converging_notes = SELECT VALUE in FROM converge WHERE out = $knot_to_delete AND type::is::record(in, 'note')",
            ),
        );
        plan.push(
            plain_statement(
                "LET $converging_knots = SELECT VALUE in FROM converge WHERE out = $knot_to_delete AND type::is::record(in, 'knot')",
            ),
        );
        plan.push(plain_statement("FOR $note IN $converging_notes { DELETE FROM contain WHERE in = $note; DELETE $note }"));
        plan.push(plain_statement("FOR $knot IN $converging_knots { DELETE FROM converge WHERE out = $knot; DELETE $knot }"));
        plan.push(plain_statement("DELETE FROM converge WHERE out = $knot_to_delete"));
        plan.push(plain_statement("DELETE $knot_to_delete"));
        plan.push(plain_statement("COMMIT"));
        assert(statements_view(plan@) =~= delete_knot_spec(id@, recursive));
        (plan, 7)
    } else {
        plan.push(bound_statement("DELETE FROM converge WHERE out = type::thing('knot', $id)", "id", id));
        plan.push(bound_statement("DELETE FROM knot WHERE id = type::thing('knot', $id)", "id", id));
        plan.push(plain_statement("COMMIT"));
        assert(statements_view(plan@) =~= delete_knot_spec(id@, recursive));
        (plan, 2)
    }
}

/// The four snippet tables have different names.
proof fn lemma_tables_distinct()
    ensures
        "text_snippet"@ != "audio_snippet"@,
        "text_snippet"@ != "image_snippet"@,
        "text_snippet"@ != "video_snippet"@,
        "audio_snippet"@ != "image_snippet"@,
        "audio_snippet"@ != "video_snippet"@,
        "image_snippet"@ != "video_snippet"@,
{
    reveal_strlit("text_snippet");
    reveal_strlit("audio_snippet");
    reveal_strlit("image_snippet");
    reveal_strlit("video_snippet");
    assert("text_snippet"@[0] != "audio_snippet"@[0]);
    assert("text_snippet"@[0] != "image_snippet"@[0]);
    assert("text_snippet"@[0] != "video_snippet"@[0]);
    assert("audio_snippet"@[0] != "image_snippet"@[0]);
    assert("audio_snippet"@[0] != "video_snippet"@[0]);
    assert("image_snippet"@[0] != "video_snippet"@[0]);
}

/// The embedding a snippet carries (empty when none was computed).
pub open spec fn carried_embedding(data: SnippetData) -> Seq<u32> {
    match data {
        SnippetData::AudioSnippet(s) => s.embedding@,
        SnippetData::ImageSnippet(s) => s.embedding@,
        SnippetData::TextSnippet(s) => s.embedding@,
        SnippetData::VideoSnippet(s) => s.embedding@,
    }
}

/// A new snippet needs an embedding job exactly when it carries no
/// embedding, whatever its kind; the job works on the value the snippet is
/// stored with (its content or path) and is of the kind its table asks for
/// when the snippet is reused later.
pub proof fn lemma_job_only_when_missing(data: SnippetData)
    ensures
        embed_need(data) is None <==> carried_embedding(data).len() > 0,
        embed_need(data) matches Some((kind, source)) ==> {
            &&& source == snippet_target(data).2
            &&& table_embed_kind(snippet_target(data).0) == Ok::<EmbedKind, Seq<char>>(kind)
        },
{
    lemma_tables_distinct();
}

/// Filling in the embedding of a reused snippet: for a supported table,
/// a missing record is refused naming it, a record that carries an
/// embedding needs nothing, and one without needs an embedding of its
/// table's kind (text embeds text, images embed images, audio and video
/// are transcribed); an unsupported table is refused whatever was read.
pub proof fn lemma_existing_snippet_law(table: Seq<char>, read: Option<bool>, id: Seq<char>)
    ensures
        (table == "text_snippet"@ || table == "audio_snippet"@ || table == "image_snippet"@ || table
            == "video_snippet"@) ==> {
            &&& read == Some(false) ==> existing_snippet_outcome(table, read, id) == Ok::<
                Option<EmbedKind>,
                Seq<char>,
            >(None)
            &&& read == Some(true) ==> existing_snippet_outcome(table, read, id) == Ok::<
                Option<EmbedKind>,
                Seq<char>,
            >(
                Some(
                    if table == "text_snippet"@ {
                        EmbedKind::Text
                    } else if table == "image_snippet"@ {
                        EmbedKind::Image
                    } else {
                        EmbedKind::Transcript
                    },
                ),
            )
            &&& read is None ==> existing_snippet_outcome(table, read, id) == Err::<Option<EmbedKind>, Seq<char>>(
                "snippet not found: "@ + table + ":"@ + id,
            )
        },
        !(table == "text_snippet"@ || table == "audio_snippet"@ || table == "image_snippet"@ || table
            == "video_snippet"@) ==> existing_snippet_outcome(table, read, id) is Err,
{
    lemma_tables_distinct();
}

proof fn lemma_id_rows_index(
    a: Seq<char>,
    b: Seq<char>,
    c: Seq<char>,
    d: Seq<char>,
    e: Seq<char>,
    f: Seq<char>,
    g: Seq<char>,
    twice: bool,
    ids: Seq<Seq<char>>,
    k: nat,
    i: int,
)
    requires
        0 <= i < k,
    ensures
        id_rows(a, b, c, d, e, f, g, twice, ids, k)[2 * i] == id_pair(a, b, c, d, e, f, g, twice, i as nat, ids[i])[0],
        id_rows(a, b, c, d, e, f, g, twice, ids, k)[2 * i + 1] == id_pair(a, b, c, d, e, f, g, twice, i as nat, ids[i])[1],
    decreases k,
{
    lemma_id_rows_len(a, b, c, d, e, f, g, twice, ids, (k - 1) as nat);
    if i < k - 1 {
        lemma_id_rows_index(a, b, c, d, e, f, g, twice, ids, (k - 1) as nat, i);
    }
}

/// Creating a knot relates every given note and every given knot into the
/// new knot: for every `i`, for the `i`-th note id, the transaction binds `$note_id{i}` to
/// it, names the record `$note_record{i}` and relates
/// `$note_record{i}->converge->$knot`; for the `i`-th knot id, likewise with
/// `$knot_id{i}`, `$knot_record{i}` and `$knot_record{i}->converge->$knot`.
/// Both relations run from the given record to the new knot.
pub proof fn lemma_create_knot_relates(
    label: Seq<char>,
    intent: Seq<char>,
    note_ids: Seq<Seq<char>>,
    knot_ids: Seq<Seq<char>>,
    i: int,
)
    requires
        0 <= i,
    ensures
        i < note_ids.len() ==> {
                let t = create_knot_spec(label, intent, note_ids, knot_ids);
                let p = 2 + 2 * note_ids.len() + 2 * knot_ids.len() + 2 * i;
                let n = decimal(i as nat);
                &&& t[p] == (StatementView {
                    text: "LET $note_record"@ + n + " = type::thing('note', $note_id"@ + n + ")"@,
                    bindings: seq![("note_id"@ + n, BindView::Text(note_ids[i]))],
                })
                &&& t[p + 1] == plain("RELATE $note_record"@ + n + "->converge->$knot"@)
            },
        i < knot_ids.len() ==> {
                let t = create_knot_spec(label, intent, note_ids, knot_ids);
                let p = 2 + 4 * note_ids.len() + 2 * knot_ids.len() + 2 * i;
                let n = decimal(i as nat);
                &&& t[p] == (StatementView {
                    text: "LET $knot_record"@ + n + " = type::thing('knot', $knot_id"@ + n + ")"@,
                    bindings: seq![("knot_id"@ + n, BindView::Text(knot_ids[i]))],
                })
                &&& t[p + 1] == plain("RELATE $knot_record"@ + n + "->converge->$knot"@)
            },
{
    let t = create_knot_spec(label, intent, note_ids, knot_ids);
    let nn = note_ids.len();
    let kk = knot_ids.len();
    let r1 = id_rows(
        "LET $note"@,
        " = SELECT * FROM type::thing('note', $note_id"@,
        ")"@,
        "note_id"@,
        "IF array::len($note"@,
        ") == 0 { THROW 'Note not found: ' + $note_id"@,
        " }"@,
        true,
        note_ids,
        nn,
    );
    let r2 = id_rows(
        "LET $existing_knot"@,
        " = SELECT * FROM type::thing('knot', $knot_id"@,
        ")"@,
        "knot_id"@,
        "IF array::len($existing_knot"@,
        ") == 0 { THROW 'Knot not found: ' + $knot_id"@,
        " }"@,
        true,
        knot_ids,
        kk,
    );
    let r3 = id_rows(
        "LET $note_record"@,
        " = type::thing('note', $note_id"@,
        ")"@,
        "note_id"@,
        "RELATE $note_record"@,
        "->converge->$knot"@,
        ""@,
        false,
        note_ids,
        nn,
    );
    let r4 = id_rows(
        "LET $knot_record"@,
        " = type::thing('knot', $knot_id"@,
        ")"@,
        "knot_id"@,
        "RELATE $knot_record"@,
        "->converge->$knot"@,
        ""@,
        false,
        knot_ids,
        kk,
    );
    lemma_id_rows_len(
        "LET $note"@,
        " = SELECT * FROM type::thing('note', $note_id"@,
        ")"@,
        "note_id"@,
        "IF array::len($note"@,
        ") == 0 { THROW 'Note not found: ' + $note_id"@,
        " }"@,
        true,
        note_ids,
        nn,
    );
    lemma_id_rows_len(
        "LET $existing_knot"@,
        " = SELECT * FROM type::thing('knot', $knot_id"@,
        ")"@,
        "knot_id"@,
        "IF array::len($existing_knot"@,
        ") == 0 { THROW 'Knot not found: ' + $knot_id"@,
        " }"@,
        true,
        knot_ids,
        kk,
    );
    lemma_id_rows_len(
        "LET $note_record"@,
        " = type::thing('note', $note_id"@,
        ")"@,
        "note_id"@,
        "RELATE $note_record"@,
        "->converge->$knot"@,
        ""@,
        false,
        note_ids,
        nn,
    );
    lemma_id_rows_len(
        "LET $knot_record"@,
        " = type::thing('knot', $knot_id"@,
        ")"@,
        "knot_id"@,
        "RELATE $knot_record"@,
        "->converge->$knot"@,
        ""@,
        false,
        knot_ids,
        kk,
    );
    let head = seq![
        plain("BEGIN"@),
        StatementView {
            text: "LET $knot = CREATE knot SET label = $label, intent = $intent"@,
            bindings: seq![("label"@, BindView::Text(label)), ("intent"@, BindView::Text(intent))],
        },
    ];
    assert(t == head + r1 + r2 + r3 + r4 + seq![plain(select_knot_text()), plain("COMMIT"@)]);
    reveal_strlit("");
    if i < note_ids.len() {
        lemma_id_rows_index(
            "LET $note_record"@,
            " = type::thing('note', $note_id"@,
            ")"@,
            "note_id"@,
            "RELATE $note_record"@,
            "->converge->$knot"@,
            ""@,
            false,
            note_ids,
            nn,
            i,
        );
        let p = 2 + 2 * note_ids.len() + 2 * knot_ids.len() + 2 * i;
        let pre = head + r1 + r2;
        assert(pre.len() == 2 + 2 * nn + 2 * kk);
        assert((pre + r3)[p] == r3[2 * i]);
        assert((pre + r3)[p + 1] == r3[2 * i + 1]);
        assert(((pre + r3) + r4)[p] == (pre + r3)[p]);
        assert(((pre + r3) + r4)[p + 1] == (pre + r3)[p + 1]);
        assert(t[p] == r3[2 * i]);
        assert(t[p + 1] == r3[2 * i + 1]);
    }
    if i < knot_ids.len() {
        lemma_id_rows_index(
            "LET $knot_record"@,
            " = type::thing('knot', $knot_id"@,
            ")"@,
            "knot_id"@,
            "RELATE $knot_record"@,
            "->converge->$knot"@,
            ""@,
            false,
            knot_ids,
            kk,
            i,
        );
        let p = 2 + 4 * note_ids.len() + 2 * knot_ids.len() + 2 * i;
        let pre = head + r1 + r2 + r3;
        assert(pre.len() == 2 + 4 * nn + 2 * kk);
        assert((pre + r4)[p] == r4[2 * i]);
        assert((pre + r4)[p + 1] == r4[2 * i + 1]);
        assert(t[p] == r4[2 * i]);
        assert(t[p + 1] == r4[2 * i + 1]);
    }
}

/// The statement that collects into `$converging_{plural}` the records of
/// table `table` that converge into the knot being deleted.
pub open spec fn converging_select(plural: Seq<char>, table: Seq<char>) -> Seq<char> {
    "LET $converging_"@ + plural + " = SELECT VALUE in FROM converge WHERE out = $knot_to_delete AND type::is::record(in, '"@
        + table + "')"@
}

/// A recursive knot deletion binds the knot to delete to the given id,
/// collects the notes (table `note`) and the knots (table `knot`) that
/// converge into it, deletes each collected note with its snippet links and
/// each collected knot with the links into it, then the links into the
/// knot and the knot itself. Every statement that binds a parameter binds
/// `$id` to the given id, in both kinds of knot deletion and in a note
/// deletion.
pub proof fn lemma_delete_knot_law(id: Seq<char>, recursive: bool)
    ensures
        ({
            let t = delete_knot_spec(id, true);
            &&& t[1] == with_id("LET $knot_to_delete = type::thing('knot', $id)"@, id)
            &&& t[2] == plain(converging_select("notes"@, "note"@))
            &&& t[3] == plain(converging_select("knots"@, "knot"@))
            &&& t[4] == plain("FOR $note IN $converging_notes { DELETE FROM contain WHERE in = $note; DELETE $note }"@)
            &&& t[5] == plain("FOR $knot IN $converging_knots { DELETE FROM converge WHERE out = $knot; DELETE $knot }"@)
            &&& t[7] == plain("DELETE $knot_to_delete"@)
        }),
        forall|k: int|
            0 <= k < delete_knot_spec(id, recursive).len() && #[trigger] delete_knot_spec(id, recursive)[k].bindings.len() > 0
                ==> delete_knot_spec(id, recursive)[k].bindings == seq![("id"@, BindView::Text(id))],
        forall|k: int|
            0 <= k < delete_note_spec(id).len() && #[trigger] delete_note_spec(id)[k].bindings.len() > 0
                ==> delete_note_spec(id)[k].bindings == seq![("id"@, BindView::Text(id))],
{
    reveal_strlit("LET $converging_");
    reveal_strlit(" = SELECT VALUE in FROM converge WHERE out = $knot_to_delete AND type::is::record(in, '");
    reveal_strlit("')");
    reveal_strlit("notes");
    reveal_strlit("note");
    reveal_strlit("knots");
    reveal_strlit("knot");
    reveal_strlit(
        "LET $converging_notes = SELECT VALUE in FROM converge WHERE out = $knot_to_delete AND type::is::record(in, 'note')",
    );
    reveal_strlit(
        "LET $converging_knots = SELECT VALUE in FROM converge WHERE out = $knot_to_delete AND type::is::record(in, 'knot')",
    );
    assert(converging_select("notes"@, "note"@)
        =~= "LET $converging_notes = SELECT VALUE in FROM converge WHERE out = $knot_to_delete AND type::is::record(in, 'note')"@);
    assert(converging_select("knots"@, "knot"@)
        =~= "LET $converging_knots = SELECT VALUE in FROM converge WHERE out = $knot_to_delete AND type::is::record(in, 'knot')"@);
}

/// Creating a knot first creates it with the given label and intent, then
/// checks that every given note and knot exists before relating anything:
/// for every `i`, the `i`-th note id is looked up in table `note` and the
/// transaction fails with `Note not found: {id}` when it is missing; the
/// `i`-th knot id likewise in table `knot` with `Knot not found: {id}`.
pub proof fn lemma_create_knot_checks(
    label: Seq<char>,
    intent: Seq<char>,
    note_ids: Seq<Seq<char>>,
    knot_ids: Seq<Seq<char>>,
    i: int,
)
    requires
        0 <= i,
    ensures
        create_knot_spec(label, intent, note_ids, knot_ids)[1] == (StatementView {
            text: "LET $knot = CREATE knot SET label = $label, intent = $intent"@,
            bindings: seq![("label"@, BindView::Text(label)), ("intent"@, BindView::Text(intent))],
        }),
        i < note_ids.len() ==> {
            let t = create_knot_spec(label, intent, note_ids, knot_ids);
            let p = 2 + 2 * i;
            let n = decimal(i as nat);
            &&& t[p] == (StatementView {
                text: "LET $note"@ + n + " = SELECT * FROM type::thing('note', $note_id"@ + n + ")"@,
                bindings: seq![("note_id"@ + n, BindView::Text(note_ids[i]))],
            })
            &&& t[p + 1] == plain(
                "IF array::len($note"@ + n + ") == 0 { THROW 'Note not found: ' + $note_id"@ + n + " }"@,
            )
        },
        i < knot_ids.len() ==> {
            let t = create_knot_spec(label, intent, note_ids, knot_ids);
            let p = 2 + 2 * note_ids.len() + 2 * i;
            let n = decimal(i as nat);
            &&& t[p] == (StatementView {
                text: "LET $existing_knot"@ + n + " = SELECT * FROM type::thing('knot', $knot_id"@ + n + ")"@,
                bindings: seq![("knot_id"@ + n, BindView::Text(knot_ids[i]))],
            })
            &&& t[p + 1] == plain(
                "IF array::len($existing_knot"@ + n + ") == 0 { THROW 'Knot not found: ' + $knot_id"@ + n + " }"@,
            )
        },
{
    let nn = note_ids.len();
    let kk = knot_ids.len();
    let t = create_knot_spec(label, intent, note_ids, knot_ids);
    let r1 = id_rows(
        "LET $note"@,
        " = SELECT * FROM type::thing('note', $note_id"@,
        ")"@,
        "note_id"@,
        "IF array::len($note"@,
        ") == 0 { THROW 'Note not found: ' + $note_id"@,
        " }"@,
        true,
        note_ids,
        nn,
    );
    let r2 = id_rows(
        "LET $existing_knot"@,
        " = SELECT * FROM type::thing('knot', $knot_id"@,
        ")"@,
        "knot_id"@,
        "IF array::len($existing_knot"@,
        ") == 0 { THROW 'Knot not found: ' + $knot_id"@,
        " }"@,
        true,
        knot_ids,
        kk,
    );
    lemma_id_rows_len(
        "LET $note"@,
        " = SELECT * FROM type::thing('note', $note_id"@,
        ")"@,
        "note_id"@,
        "IF array::len($note"@,
        ") == 0 { THROW 'Note not found: ' + $note_id"@,
        " }"@,
        true,
        note_ids,
        nn,
    );
    lemma_id_rows_len(
        "LET $existing_knot"@,
        " = SELECT * FROM type::thing('knot', $knot_id"@,
        ")"@,
        "knot_id"@,
        "IF array::len($existing_knot"@,
        ") == 0 { THROW 'Knot not found: ' + $knot_id"@,
        " }"@,
        true,
        knot_ids,
        kk,
    );
    let head = seq![
        plain("BEGIN"@),
        StatementView {
            text: "LET $knot = CREATE knot SET label = $label, intent = $intent"@,
            bindings: seq![("label"@, BindView::Text(label)), ("intent"@, BindView::Text(intent))],
        },
    ];
    let rest = t.subrange((2 + 2 * nn + 2 * kk) as int, t.len() as int);
    assert(t =~= head + r1 + r2 + rest);
    if i < nn {
        lemma_id_rows_index(
            "LET $note"@,
            " = SELECT * FROM type::thing('note', $note_id"@,
            ")"@,
            "note_id"@,
            "IF array::len($note"@,
            ") == 0 { THROW 'Note not found: ' + $note_id"@,
            " }"@,
            true,
            note_ids,
            nn,
            i,
        );
        assert(t[2 + 2 * i] == r1[2 * i]);
        assert(t[2 + 2 * i + 1] == r1[2 * i + 1]);
    }
    if i < kk {
        lemma_id_rows_index(
            "LET $existing_knot"@,
            " = SELECT * FROM type::thing('knot', $knot_id"@,
            ")"@,
            "knot_id"@,
            "IF array::len($existing_knot"@,
            ") == 0 { THROW 'Knot not found: ' + $knot_id"@,
            " }"@,
            true,
            knot_ids,
            kk,
            i,
        );
        assert(t[2 + 2 * nn + 2 * i] == r2[2 * i]);
        assert(t[2 + 2 * nn + 2 * i + 1] == r2[2 * i + 1]);
    }
}

} // verus!
