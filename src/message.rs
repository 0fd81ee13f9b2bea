use vstd::prelude::*;

verus! {

/// The value of one tag as the engine delivered it.
#[derive(Clone, Debug, PartialEq, Eq)]
pub enum TagValue {
    /// A value that reads as text.
    Text(String),
    /// A value that does not read as text: its raw rendering, and why the
    /// engine refused the conversion.
    Other { raw: String, reason: String },
}

/// A message drawn from the session's bus. The receive filter admits these
/// four kinds and no other.
#[derive(Clone, Debug, PartialEq, Eq)]
pub enum BusMessage {
    /// Tags found in the stream, in the order the engine listed them.
    Tag(Vec<(String, TagValue)>),
    /// A node of the graph failed.
    Error { source_path: Option<String>, description: String, details: Option<String> },
    /// The whole input was consumed.
    EndOfStream,
    /// The pipeline finished its pending state change (preroll is complete).
    AsyncDone,
}

/// Why one run over a file failed.
#[derive(Clone, Debug, PartialEq, Eq)]
pub enum TagError {
    /// The blocking receive on the bus returned no message.
    BusFailure,
    /// A node reported an error: the node's path in the graph, if the message
    /// named one, and the engine's description and details.
    NodeError { source_path: Option<String>, description: String, details: Option<String> },
    /// The stream ended before the pipeline settled.
    PrematureEndOfStream,
    /// A tag's value could not be read as text.
    TagValueDecodeFailure { tag_name: String, raw_value: String, reason: String },
}

/// Folds the entries of one tag message into `m`, front to back, a later
/// value of a name replacing an earlier one. The first entry whose value is
/// not text ends the fold with an error naming that entry.
pub open spec fn merge_tags(m: Map<Seq<char>, Seq<char>>, es: Seq<(String, TagValue)>) -> Result<
    Map<Seq<char>, Seq<char>>,
    TagError,
>
    decreases es.len(),
{
    if es.len() == 0 {
        Ok(m)
    } else {
        match es[0].1 {
            TagValue::Text(v) => merge_tags(m.insert(es[0].0@, v@), es.drop_first()),
            TagValue::Other { raw, reason } => Err(
                TagError::TagValueDecodeFailure { tag_name: es[0].0, raw_value: raw, reason },
            ),
        }
    }
}

/// Names that no entry carries keep their value (or their absence) through
/// a successful merge.
pub proof fn lemma_merge_keeps_other_names(
    m: Map<Seq<char>, Seq<char>>,
    es: Seq<(String, TagValue)>,
    k: Seq<char>,
)
    requires
        merge_tags(m, es) is Ok,
        forall|j: int| 0 <= j < es.len() ==> es[j].0@ != k,
    ensures
        merge_tags(m, es)->Ok_0.contains_key(k) == m.contains_key(k),
        m.contains_key(k) ==> merge_tags(m, es)->Ok_0[k] == m[k],
    decreases es.len(),
{
    if es.len() > 0 {
        if let TagValue::Text(v) = es[0].1 {
            assert(es[0].0@ != k);
            assert forall|j: int| 0 <= j < es.drop_first().len() implies es.drop_first()[j].0@ != k by {
                assert(es.drop_first()[j] == es[j + 1]);
            }
            lemma_merge_keeps_other_names(m.insert(es[0].0@, v@), es.drop_first(), k);
        }
    }
}

/// Last write wins: after a successful merge, every entry's value is text,
/// and a name holds the value of the last entry that carries it.
pub proof fn lemma_last_write_wins(m: Map<Seq<char>, Seq<char>>, es: Seq<(String, TagValue)>, i: int)
    requires
        merge_tags(m, es) is Ok,
        0 <= i < es.len(),
        forall|j: int| i < j < es.len() ==> es[j].0@ != es[i].0@,
    ensures
        es[i].1 is Text,
        merge_tags(m, es)->Ok_0.contains_key(es[i].0@),
        merge_tags(m, es)->Ok_0[es[i].0@] == es[i].1->Text_0@,
    decreases es.len(),
{
    let rest = es.drop_first();
    if let TagValue::Text(v) = es[0].1 {
        if i == 0 {
            assert forall|j: int| 0 <= j < rest.len() implies rest[j].0@ != es[0].0@ by {
                assert(rest[j] == es[j + 1]);
            }
            lemma_merge_keeps_other_names(m.insert(es[0].0@, v@), rest, es[0].0@);
        } else {
            assert forall|j: int| i - 1 < j < rest.len() implies #[trigger] rest[j].0@ != rest[i - 1].0@ by {
                assert(rest[j] == es[j + 1]);
            }
            lemma_last_write_wins(m.insert(es[0].0@, v@), rest, i - 1);
        }
    }
}

/// Merging two lists one after the other is merging their concatenation:
/// the value a name ends with does not depend on how the entries were split
/// into messages.
pub proof fn lemma_merge_concat(
    m: Map<Seq<char>, Seq<char>>,
    a: Seq<(String, TagValue)>,
    b: Seq<(String, TagValue)>,
)
    ensures
        merge_tags(m, a + b) == (match merge_tags(m, a) {
            Ok(m2) => merge_tags(m2, b),
            Err(e) => Err(e),
        }),
    decreases a.len(),
{
    if a.len() > 0 {
        assert((a + b)[0] == a[0]);
        assert((a + b).drop_first() =~= a.drop_first() + b);
        if let TagValue::Text(v) = a[0].1 {
            lemma_merge_concat(m.insert(a[0].0@, v@), a.drop_first(), b);
        }
    } else {
        assert(a + b =~= b);
    }
}

} // verus!
