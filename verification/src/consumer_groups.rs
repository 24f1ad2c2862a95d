//! Consumer groups, in which each entry of a stream goes to one consumer.
use crate::streams;
use crate::streams::{ActionView, ReadRequest, ReaderAction, RequestView, StreamEntry, StreamPosition};
use crate::text;
use vstd::prelude::*;
use vstd::string::*;

verus! {

/// The arguments of the `XGROUP` command that creates `group` on `stream`, and the stream where
/// there is none.
pub fn create_group_args(stream: &str, group: &str, start_from: StreamPosition) -> (args: Vec<String>)
    ensures
        text::texts(args@) == seq!["CREATE"@, stream@, group@, start_from.id(), "MKSTREAM"@],
{
    let args = vec![
        "CREATE".to_owned(),
        stream.to_owned(),
        group.to_owned(),
        start_from.into_id(),
        "MKSTREAM".to_owned(),
    ];
    assert(text::texts(args@) =~= seq!["CREATE"@, stream@, group@, start_from.id(), "MKSTREAM"@]);
    args
}

/// Whether an error code says that the group is already there.
pub open spec fn is_busy(code: Option<&str>) -> bool {
    match code {
        Some(code) => code@ == "BUSYGROUP"@,
        None => false,
    }
}

/// What creating a group comes to, where `code` is the code of the error, if it has one. That the
/// group is already there is no failure.
pub fn group_created<E>(result: Result<(), E>, code: Option<&str>) -> (r: Result<(), E>)
    ensures
        match result {
            Ok(_) => r is Ok,
            Err(e) => if is_busy(code) {
                r is Ok
            } else {
                r == Err::<(), E>(e)
            },
        },
{
    match result {
        Ok(_) => Ok(()),
        Err(e) => {
            let busy = match code {
                Some(code) => text::same_text(code, "BUSYGROUP"),
                None => false,
            };
            if busy {
                Ok(())
            } else {
                Err(e)
            }
        },
    }
}

/// What a consumer is at: it connects, takes the entries again that it was given and did not
/// acknowledge, from some id on, and then takes new ones.
#[derive(Debug)]
pub enum Phase {
    Disconnected,
    Again(String),
    New,
}

/// The contents of a [`Phase`].
pub enum PhaseView {
    Disconnected,
    Again(Seq<char>),
    New,
}

impl View for Phase {
    type V = PhaseView;

    open spec fn view(&self) -> PhaseView {
        match self {
            Phase::Disconnected => PhaseView::Disconnected,
            Phase::Again(cursor) => PhaseView::Again(cursor@),
            Phase::New => PhaseView::New,
        }
    }
}

/// Reads a stream as a consumer of a group.
#[derive(Debug)]
pub struct GroupReader {
    stream_key: String,
    group: String,
    consumer: String,
    phase: Phase,
    received: Vec<StreamEntry>,
}

/// The state of a [`GroupReader`]: what it is at in which stream, and what it received and did
/// not hand on yet.
#[verifier::ext_equal]
pub struct GroupReaderView {
    pub stream_key: Seq<char>,
    pub group: Seq<char>,
    pub consumer: Seq<char>,
    pub phase: PhaseView,
    pub received: Seq<StreamEntry>,
}

impl GroupReaderView {
    /// What is done next: what was received is handed on before anything else is read. Entries
    /// that are taken again are there already, so that read does not wait.
    pub open spec fn action(self) -> ActionView {
        if self.received.len() > 0 {
            ActionView::Deliver(self.received[0])
        } else {
            match self.phase {
                PhaseView::Disconnected => ActionView::Connect,
                PhaseView::Again(cursor) => ActionView::Read(self.request(cursor, None)),
                PhaseView::New => ActionView::Read(self.request(">"@, Some(streams::BLOCK_MILLIS))),
            }
        }
    }

    /// A read as this consumer.
    pub open spec fn request(self, id: Seq<char>, block: Option<usize>) -> RequestView {
        RequestView {
            stream_key: self.stream_key,
            id,
            consumer: Some((self.group, self.consumer)),
            block,
            count: streams::READ_COUNT,
        }
    }

    /// The state once that was decided: entries are taken again behind the last one.
    pub open spec fn after_action(self) -> GroupReaderView {
        if self.received.len() > 0 {
            GroupReaderView {
                phase: match self.phase {
                    PhaseView::Again(_) => PhaseView::Again(self.received[0].id@),
                    phase => phase,
                },
                received: self.received.drop_first(),
                ..self
            }
        } else {
            self
        }
    }

    /// The state after a read gave `reply`, or failed. Where nothing is taken again any more, or
    /// that fails, new entries are next; where reading those fails, a new connection is.
    pub open spec fn after_reply(self, reply: Option<Seq<StreamEntry>>) -> GroupReaderView {
        match reply {
            Some(entries) => GroupReaderView {
                phase: if self.phase is Again && entries.len() == 0 {
                    PhaseView::New
                } else {
                    self.phase
                },
                received: self.received + entries,
                ..self
            },
            None => GroupReaderView {
                phase: if self.phase is Again {
                    PhaseView::New
                } else {
                    PhaseView::Disconnected
                },
                ..self
            },
        }
    }

    /// The state after a new connection: first, all that was not acknowledged is taken again.
    pub open spec fn after_connect(self) -> GroupReaderView {
        GroupReaderView { phase: PhaseView::Again("0"@), ..self }
    }

    /// The state after `n` decisions.
    pub open spec fn after_actions(self, n: nat) -> GroupReaderView
        decreases n,
    {
        if n == 0 {
            self
        } else {
            self.after_action().after_actions((n - 1) as nat)
        }
    }
}

impl View for GroupReader {
    type V = GroupReaderView;

    closed spec fn view(&self) -> GroupReaderView {
        GroupReaderView {
            stream_key: self.stream_key@,
            group: self.group@,
            consumer: self.consumer@,
            phase: self.phase@,
            received: self.received@,
        }
    }
}

impl GroupReader {
    /// A reader of the stream at `stream_key` as `consumer` in `group`, not yet connected.
    pub fn new(stream_key: String, group: String, consumer: String) -> (reader: GroupReader)
        ensures
            reader@ == (GroupReaderView {
                stream_key: stream_key@,
                group: group@,
                consumer: consumer@,
                phase: PhaseView::Disconnected,
                received: Seq::empty(),
            }),
    {
        GroupReader {
            stream_key,
            group,
            consumer,
            phase: Phase::Disconnected,
            received: Vec::new(),
        }
    }

    fn request(&self, id: String, block: Option<usize>) -> (r: ReadRequest)
        ensures
            r@ == self@.request(id@, block),
    {
        ReadRequest {
            stream_key: self.stream_key.clone(),
            id,
            consumer: Some((self.group.clone(), self.consumer.clone())),
            block,
            count: streams::READ_COUNT,
        }
    }

    /// What is done next.
    pub fn next(&mut self) -> (action: ReaderAction)
        ensures
            action@ == old(self)@.action(),
            final(self)@ == old(self)@.after_action(),
    {
        if self.received.len() > 0 {
            let ghost before = self.received@;
            let entry = self.received.remove(0);
            assert(self.received@ =~= before.drop_first());
            let again = match &self.phase {
                Phase::Again(_) => true,
                _ => false,
            };
            if again {
                self.phase = Phase::Again(entry.id.clone());
            }
            ReaderAction::Deliver(entry)
        } else {
            match &self.phase {
                Phase::Disconnected => ReaderAction::Connect,
                Phase::Again(cursor) => ReaderAction::Read(self.request(cursor.clone(), None)),
                Phase::New => ReaderAction::Read(
                    self.request(">".to_owned(), Some(streams::BLOCK_MILLIS)),
                ),
            }
        }
    }

    /// Takes note of a new connection.
    pub fn on_connected(&mut self)
        ensures
            final(self)@ == old(self)@.after_connect(),
    {
        self.phase = Phase::Again("0".to_owned());
    }

    /// Takes note of what a read gave, `None` where it failed.
    pub fn on_reply(&mut self, reply: Option<Vec<StreamEntry>>)
        ensures
            final(self)@ == old(self)@.after_reply(
                match reply {
                    Some(entries) => Some(entries@),
                    None => None,
                },
            ),
    {
        let again = match &self.phase {
            Phase::Again(_) => true,
            _ => false,
        };
        match reply {
            Some(entries) => {
                if again && entries.len() == 0 {
                    self.phase = Phase::New;
                }
                let mut entries = entries;
                self.received.append(&mut entries);
            },
            None => {
                self.phase = if again { Phase::New } else { Phase::Disconnected };
            },
        }
    }
}

proof fn lemma_after_actions(reader: GroupReaderView, n: nat)
    requires
        n <= reader.received.len(),
    ensures
        reader.after_actions(n) == (GroupReaderView {
            received: reader.received.skip(n as int),
            phase: if n > 0 && reader.phase is Again {
                PhaseView::Again(reader.received[n - 1].id@)
            } else {
                reader.phase
            },
            ..reader
        }),
    decreases n,
{
    if n == 0 {
        assert(reader.received.skip(0) =~= reader.received);
    } else {
        let next = reader.after_action();
        lemma_after_actions(next, (n - 1) as nat);
        assert(next.received.skip(n - 1) =~= reader.received.skip(n as int));
    }
}

/// What a read gives is handed on entry by entry, in order, each once.
pub proof fn law_replies_are_handed_on_in_order(
    reader: GroupReaderView,
    entries: Seq<StreamEntry>,
    n: nat,
)
    requires
        reader.received.len() == 0,
        n < entries.len(),
    ensures
        reader.after_reply(Some(entries)).after_actions(n).action() == ActionView::Deliver(
            entries[n as int],
        ),
        reader.after_reply(Some(entries)).after_actions(entries.len()).received.len() == 0,
{
    let start = reader.after_reply(Some(entries));
    assert(start.received =~= entries);
    lemma_after_actions(start, n);
    lemma_after_actions(start, entries.len());
}

/// A consumer that connects takes everything again that it did not acknowledge before it takes
/// anything new: it starts with the oldest entry, each further read asks for what is behind the
/// last entry, and only a read that gives nothing, or fails, makes it go on to new entries.
pub proof fn law_unacknowledged_entries_come_first(
    reader: GroupReaderView,
    entries: Seq<StreamEntry>,
)
    requires
        reader.received.len() == 0,
    ensures
        reader.after_connect().action() == ActionView::Read(reader.request("0"@, None)),
        reader.phase is Again && entries.len() > 0 ==> reader.after_reply(Some(entries)).after_actions(
            entries.len(),
        ).action() == ActionView::Read(reader.request(entries.last().id@, None)),
        reader.phase is Again ==> reader.after_reply(Some(Seq::empty())).phase is New
            && reader.after_reply(None).phase is New,
        !(reader.phase is Again) ==> reader.after_reply(Some(entries)).phase == reader.phase
            && reader.after_reply(None).action() is Connect,
{
    let start = reader.after_reply(Some(entries));
    assert(start.received =~= entries);
    lemma_after_actions(start, entries.len());
    assert(start.received.skip(entries.len() as int).len() == 0);
}

}
