//! Messages exchanged inside rooms.
//!
//! Each room keeps its messages in its own table. A message either starts a
//! thread (`reply_to` is `None`) or replies to the message whose id it names.
//! Messages may outlive their author's session, in which case the author
//! field is dropped.

use vstd::prelude::*;

use crate::db;
use crate::db::MessageTable;
use crate::db::SessionRecord;
use crate::db::has_session;
use crate::db::Store;
use crate::db::find_table_index;
use crate::db::has_table;
use crate::db::lemma_row_at;
use crate::db::lemma_row_push;
use crate::db::lemma_row_update;
use crate::db::table_at;
use crate::db::table_key;
use crate::db::table_wf;

verus! {

/// What pulldown-cmark's parser and HTML renderer produce for a text, with
/// table support enabled. The result depends on the text alone.
pub uninterp spec fn markdown_html_of(s: Seq<char>) -> Seq<char>;

/// What ammonia's `clean` produces for an HTML fragment, under the default
/// configuration. The result depends on the fragment alone.
pub uninterp spec fn sanitized_of(s: Seq<char>) -> Seq<char>;

/// Relies on pulldown-cmark's `Parser::new_ext` and `html::push_html`, with
/// tables enabled: the rendered HTML is a function of the input text alone.
#[verifier::external_body]
fn render_markdown(message: &str) -> (r: String)
    ensures
        r@ == markdown_html_of(message@),
{
    let mut options = pulldown_cmark::Options::empty();
    options.insert(pulldown_cmark::Options::ENABLE_TABLES);
    let parser = pulldown_cmark::Parser::new_ext(message, options);
    let mut html = String::new();
    pulldown_cmark::html::push_html(&mut html, parser);
    html
}

/// Relies on ammonia's `clean`, under the default configuration: the
/// sanitized HTML is a function of the input alone.
#[verifier::external_body]
pub(crate) fn sanitize_html(html: &str) -> (r: String)
    ensures
        r@ == sanitized_of(html@),
{
    ammonia::clean(html)
}

/// Sanitizes a user's message and prepares it for being stored.
///
/// To prevent attacks like HTML-injection, messages are sanitized before
/// being sent to other users. Messages also support CommonMark, which is
/// converted to normal HTML. The conversion happens once, at storage time,
/// not on every delivery.
pub fn prepare_for_storage(message: &mut String)
    ensures
        final(message)@ == sanitized_of(markdown_html_of(old(message)@)),
{
    let html = render_markdown(message.as_str());
    let clean = sanitize_html(html.as_str());
    *message = clean;
}

/// Holds the relevant information of a message.
pub struct Message {
    pub id: i32,
    pub content: String,
    pub timestamp: i64,
    /// The id of the authoring session. It is optional because, as sessions
    /// time out, messages can "forget" their author. It must never be sent
    /// to clients.
    pub author: Option<String>,
    /// Messages which start new threads have this field set to `None`.
    /// Replies hold the id of the message which started their thread.
    pub reply_to: Option<i32>,
}

/// A message is in the delivery interval when its timestamp lies in
/// `(lo, hi]`: the open lower bound prevents redelivering the boundary
/// message already sent in a previous poll, and the closed upper bound
/// includes a message inserted at exactly the poll instant.
pub open spec fn between_pred(lo: i64, hi: i64) -> spec_fn(Message) -> bool {
    |m: Message| lo < m.timestamp <= hi
}

/// A message as it stands once the given sessions are all that remain: a
/// message whose authoring session is gone forgets its author.
pub open spec fn forget_author(m: Message, sessions: Seq<SessionRecord>) -> Message {
    match m.author {
        Some(a) => if has_session(sessions, a@) {
            m
        } else {
            Message {
                id: m.id,
                content: m.content,
                timestamp: m.timestamp,
                author: None,
                reply_to: m.reply_to,
            }
        },
        None => m,
    }
}

/// A message table's content once the given sessions are all that remain.
pub open spec fn forget_authors(msgs: Seq<Message>, sessions: Seq<SessionRecord>) -> Seq<Message> {
    msgs.map_values(|m: Message| forget_author(m, sessions))
}

impl Message {
    /// Relies on std's `SystemTime::now`: the duration since the Unix epoch,
    /// in whole milliseconds, converted to `i64` (saturating at the type's
    /// maximum), is never negative.
    ///
    /// Returns the current timestamp, as it should be saved in the store.
    /// Since the server might receive multiple messages quickly, timestamps
    /// have millisecond precision.
    #[verifier::external_body]
    pub fn current_timestamp() -> (r: i64)
        ensures
            0 <= r,
    {
        match std::time::SystemTime::now().duration_since(std::time::UNIX_EPOCH) {
            Ok(d) => i64::try_from(d.as_millis()).unwrap_or(i64::MAX),
            Err(_) => 0,
        }
    }

    /// Returns a copy of the message.
    fn duplicate(&self) -> (r: Message)
        ensures
            r == *self,
    {
        Message {
            id: self.id,
            content: self.content.clone(),
            timestamp: self.timestamp,
            author: match &self.author {
                Some(a) => Some(a.clone()),
                None => None,
            },
            reply_to: self.reply_to,
        }
    }

    /// Initializes a fresh, empty table for a room's messages and returns
    /// its serial id.
    pub fn setup_table(store: &mut Store) -> (tid: i32)
        requires
            old(store).wf(),
            old(store).next_table_id < i32::MAX,
        ensures
            final(store).wf(),
            final(store).rooms == old(store).rooms,
            final(store).sessions == old(store).sessions,
            final(store).attempts == old(store).attempts,
            final(store).checkpoints == old(store).checkpoints,
            final(store).admins == old(store).admins,
            final(store).welcome_message == old(store).welcome_message,
            tid == old(store).next_table_id,
            final(store).next_table_id == old(store).next_table_id + 1,
            !has_table(old(store).tables@, tid as int),
            has_table(final(store).tables@, tid as int),
            table_at(final(store).tables@, tid as int).table_id == tid,
            table_at(final(store).tables@, tid as int).next_message_id == 1,
            table_at(final(store).tables@, tid as int).messages@ == Seq::<Message>::empty(),
            forall|t: int|
                t != tid ==> has_table(final(store).tables@, t) == has_table(
                    old(store).tables@,
                    t,
                ) && (has_table(old(store).tables@, t) ==> table_at(final(store).tables@, t)
                    == table_at(old(store).tables@, t)),
    {
        let tid = store.next_table_id;
        store.next_table_id = store.next_table_id + 1;
        let fresh = MessageTable { table_id: tid, next_message_id: 1, messages: Vec::new() };
        store.tables.push(fresh);
        proof {
            let t0 = old(store).tables@;
            let t1 = store.tables@;
            let recg = t1[t1.len() - 1];
            assert(t1 == t0.push(recg));
            assert(!has_table(t0, tid as int)) by {
                if has_table(t0, tid as int) {
                    let i = crate::db::row_idx(t0, table_key(), tid as int);
                    assert(0 <= i < t0.len() && table_key()(t0[i]) == tid as int);
                }
            }
            lemma_row_push(t0, table_key(), recg, tid as int);
            assert forall|t: int| t != tid implies has_table(t1, t) == has_table(t0, t) && (
            has_table(t0, t) ==> table_at(t1, t) == table_at(t0, t)) by {
                lemma_row_push(t0, table_key(), recg, t);
            }
            assert forall|i: int| 0 <= i < store.rooms@.len() implies has_table(
                t1,
                (#[trigger] store.rooms@[i]).table_id as int,
            ) by {
                lemma_row_push(t0, table_key(), recg, store.rooms@[i].table_id as int);
            }
        }
        tid
    }

    /// Returns all messages inserted into the table in the given interval.
    ///
    /// The left endpoint is exclusive, and the right one is inclusive —
    /// i.e., (old, new].
    pub fn get_between(store: &Store, table_id: i32, lower: i64, upper: i64) -> (r: Result<
        Vec<Message>,
        db::Error,
    >)
        requires
            store.wf(),
        ensures
            r is Ok <==> has_table(store.tables@, table_id as int),
            r matches Err(e) ==> e == db::Error::NoData,
            r matches Ok(v) ==> v@ == table_at(store.tables@, table_id as int).messages@.filter(
                between_pred(lower, upper),
            ),
    {
        let j = match find_table_index(&store.tables, table_id) {
            Some(j) => j,
            None => {
                return Err(db::Error::NoData);
            },
        };
        proof {
            lemma_row_at(store.tables@, table_key(), j as int);
        }
        let table = &store.tables[j];
        let ghost msgs = table.messages@;
        let ghost pred = between_pred(lower, upper);
        let n = table.messages.len();
        let mut out: Vec<Message> = Vec::new();
        proof {
            reveal(Seq::filter);
            assert(msgs.subrange(0, 0).filter(pred) =~= Seq::<Message>::empty());
        }
        let mut i: usize = 0;
        while i < n
            invariant
                n == msgs.len(),
                i <= n,
                table.messages@ == msgs,
                out@ == msgs.subrange(0, i as int).filter(pred),
                pred == between_pred(lower, upper),
            decreases n - i,
        {
            let m = &table.messages[i];
            if lower < m.timestamp && m.timestamp <= upper {
                out.push(m.duplicate());
            }
            proof {
                reveal(Seq::filter);
                assert(msgs.subrange(0, i as int + 1).drop_last() =~= msgs.subrange(0, i as int));
                assert(msgs.subrange(0, i as int + 1).last() == msgs[i as int]);
                assert(out@ == msgs.subrange(0, i as int + 1).filter(pred));
            }
            i += 1;
        }
        proof {
            assert(msgs.subrange(0, msgs.len() as int) =~= msgs);
        }
        Ok(out)
    }

    /// Adds a new message to the given table, stamped with the given time
    /// and the next serial message id.
    pub fn add(
        store: &mut Store,
        table_id: i32,
        content: String,
        author: String,
        reply_to: Option<i32>,
        now: i64,
    ) -> (r: Result<(), db::Error>)
        requires
            old(store).wf(),
        ensures
            final(store).wf(),
            final(store).same_except_tables(*old(store)),
            r is Ok <==> has_table(old(store).tables@, table_id as int) && table_at(
                old(store).tables@,
                table_id as int,
            ).next_message_id < i32::MAX,
            !has_table(old(store).tables@, table_id as int) ==> r == Err::<(), db::Error>(
                db::Error::NoData,
            ) && *final(store) == *old(store),
            r matches Err(e) ==> *final(store) == *old(store),
            r is Ok ==> has_table(final(store).tables@, table_id as int) && table_at(
                final(store).tables@,
                table_id as int,
            ).messages@ == table_at(old(store).tables@, table_id as int).messages@.push(
                (Message {
                    id: table_at(old(store).tables@, table_id as int).next_message_id,
                    content: content,
                    timestamp: now,
                    author: Some(author),
                    reply_to: reply_to,
                }),
            ) && table_at(final(store).tables@, table_id as int).next_message_id == table_at(
                old(store).tables@,
                table_id as int,
            ).next_message_id + 1 && table_at(final(store).tables@, table_id as int).table_id
                == table_id,
            r is Ok ==> forall|t: int|
                t != table_id ==> has_table(final(store).tables@, t) == has_table(
                    old(store).tables@,
                    t,
                ) && (has_table(old(store).tables@, t) ==> table_at(final(store).tables@, t)
                    == table_at(old(store).tables@, t)),
    {
        let j = match find_table_index(&store.tables, table_id) {
            Some(j) => j,
            None => {
                return Err(db::Error::NoData);
            },
        };
        proof {
            lemma_row_at(old(store).tables@, table_key(), j as int);
        }
        if store.tables[j].next_message_id == i32::MAX {
            return Err(db::Error::Full);
        }
        let mid = store.tables[j].next_message_id;
        let msg = Message { id: mid, content, timestamp: now, author: Some(author), reply_to };
        let table = &mut store.tables[j];
        table.messages.push(msg);
        table.next_message_id = mid + 1;
        proof {
            let t0 = old(store).tables@;
            let t1 = store.tables@;
            let recg = t1[j as int];
            assert(t1 == t0.update(j as int, recg));
            lemma_row_update(t0, table_key(), j as int, recg, table_id as int);
            assert forall|t: int| t != table_id implies has_table(t1, t) == has_table(t0, t) && (
            has_table(t0, t) ==> table_at(t1, t) == table_at(t0, t)) by {
                lemma_row_update(t0, table_key(), j as int, recg, t);
            }
            assert forall|i: int| 0 <= i < store.rooms@.len() implies has_table(
                t1,
                (#[trigger] store.rooms@[i]).table_id as int,
            ) by {
                lemma_row_update(t0, table_key(), j as int, recg, store.rooms@[i].table_id as int);
            }
            assert(table_wf(recg)) by {
                let m0 = t0[j as int].messages@;
                let m1 = recg.messages@;
                assert(m1 == m0.push(m1.last()));
                assert forall|k1: int, k2: int|
                    0 <= k1 < m1.len() && 0 <= k2 < m1.len() && k1 != k2 implies (
                #[trigger] m1[k1]).id != (#[trigger] m1[k2]).id by {
                    if k1 < m0.len() && k2 < m0.len() {
                        assert(m1[k1] == m0[k1] && m1[k2] == m0[k2]);
                    } else if k1 < m0.len() {
                        assert(m1[k1] == m0[k1]);
                    } else if k2 < m0.len() {
                        assert(m1[k2] == m0[k2]);
                    }
                }
            }
            assert forall|i: int| 0 <= i < t1.len() implies table_wf(#[trigger] t1[i]) by {
                if i != j {
                    assert(t1[i] == t0[i]);
                }
            }
        }
        Ok(())
    }
}

/// The content of the JSON form through which users send messages.
pub struct MessageJson {
    pub content: String,
    pub reply_to: Option<i32>,
}

/// The content of the response sent to users upon an update request.
pub struct Updates {
    pub clean_stored: bool,
    pub messages: Vec<Message>,
}

} // verus!
