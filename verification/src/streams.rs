//! Readers of streams. A reader decides what is done next: connect, read, or hand on an entry.
//! Whoever drives it does so and reports back what came of it.
use crate::string_map::StringMap;
use vstd::prelude::*;
use vstd::string::*;

verus! {

/// `redis::Value`, carried as it is: only `redis` looks inside.
#[verifier::external_type_specification]
#[verifier::external_body]
pub struct ExRedisValue(redis::Value);

/// For how long a read waits for new entries, in milliseconds.
pub const BLOCK_MILLIS: usize = 5000;

/// How many seconds pass before a connection is tried for again.
pub const RECONNECT_SECONDS: u64 = 1;

/// How many entries a read gives at most.
pub const READ_COUNT: usize = 100;

/// Where in the stream a reader should start.
#[derive(Debug)]
pub enum StreamPosition {
    /// All existing entries are read, then the new ones.
    Beginning,
    /// Only entries that are added from now on are read.
    NewOnly,
    /// Entries behind the one with the given id are read; that one is not.
    After(String),
}

impl StreamPosition {
    /// The id that stands for the position in a read.
    pub open spec fn id(self) -> Seq<char> {
        match self {
            StreamPosition::Beginning => "0"@,
            StreamPosition::NewOnly => "$"@,
            StreamPosition::After(id) => id@,
        }
    }

    /// The id that stands for the position in a read.
    pub fn into_id(self) -> (r: String)
        ensures
            r@ == self.id(),
    {
        match self {
            StreamPosition::Beginning => "0".to_owned(),
            StreamPosition::NewOnly => "$".to_owned(),
            StreamPosition::After(id) => id,
        }
    }
}

/// An entry of a stream.
#[derive(Debug)]
pub struct StreamEntry {
    pub id: String,
    pub map: StringMap<redis::Value>,
}

/// A read of a stream, for a consumer in a group where one is given.
#[derive(Debug)]
pub struct ReadRequest {
    pub stream_key: String,
    pub id: String,
    pub consumer: Option<(String, String)>,
    pub block: Option<usize>,
    pub count: usize,
}

/// The contents of a [`ReadRequest`].
pub struct RequestView {
    pub stream_key: Seq<char>,
    pub id: Seq<char>,
    pub consumer: Option<(Seq<char>, Seq<char>)>,
    pub block: Option<usize>,
    pub count: usize,
}

impl View for ReadRequest {
    type V = RequestView;

    open spec fn view(&self) -> RequestView {
        RequestView {
            stream_key: self.stream_key@,
            id: self.id@,
            consumer: match self.consumer {
                Some(c) => Some((c.0@, c.1@)),
                None => None,
            },
            block: self.block,
            count: self.count,
        }
    }
}

/// What a reader does next.
#[derive(Debug)]
pub enum ReaderAction {
    Connect,
    Read(ReadRequest),
    Deliver(StreamEntry),
    /// There are no more entries, as a read failed.
    End,
}

/// The contents of a [`ReaderAction`].
pub enum ActionView {
    Connect,
    Read(RequestView),
    Deliver(StreamEntry),
    End,
}

impl View for ReaderAction {
    type V = ActionView;

    open spec fn view(&self) -> ActionView {
        match self {
            ReaderAction::Connect => ActionView::Connect,
            ReaderAction::Read(request) => ActionView::Read(request@),
            ReaderAction::Deliver(entry) => ActionView::Deliver(*entry),
            ReaderAction::End => ActionView::End,
        }
    }
}

/// Reads all entries of a stream from some position on, until a read fails. Whoever drives it then
/// decides whether to restart it.
#[derive(Debug)]
pub struct StreamReader {
    stream_key: String,
    last_id: String,
    connected: bool,
    ended: bool,
    received: Vec<StreamEntry>,
}

/// The state of a [`StreamReader`]: where it is in which stream, and what it received and did not
/// hand on yet.
#[verifier::ext_equal]
pub struct StreamReaderView {
    pub stream_key: Seq<char>,
    pub last_id: Seq<char>,
    pub connected: bool,
    pub ended: bool,
    pub received: Seq<StreamEntry>,
}

impl StreamReaderView {
    /// What is done next: what was received is handed on before anything else is read.
    pub open spec fn action(self) -> ActionView {
        if self.received.len() > 0 {
            ActionView::Deliver(self.received[0])
        } else if self.ended {
            ActionView::End
        } else if !self.connected {
            ActionView::Connect
        } else {
            ActionView::Read(
                RequestView {
                    stream_key: self.stream_key,
                    id: self.last_id,
                    consumer: None,
                    block: Some(BLOCK_MILLIS),
                    count: READ_COUNT,
                },
            )
        }
    }

    /// The state once that was decided: an entry that is handed on is the last one.
    pub open spec fn after_action(self) -> StreamReaderView {
        if self.received.len() > 0 {
            StreamReaderView {
                last_id: self.received[0].id@,
                received: self.received.drop_first(),
                ..self
            }
        } else {
            self
        }
    }

    /// The state after a read gave `reply`, or failed. A failure is the end, and keeps the place.
    pub open spec fn after_reply(self, reply: Option<Seq<StreamEntry>>) -> StreamReaderView {
        match reply {
            Some(entries) => StreamReaderView { received: self.received + entries, ..self },
            None => StreamReaderView { connected: false, ended: true, ..self },
        }
    }

    /// The state after `n` decisions.
    pub open spec fn after_actions(self, n: nat) -> StreamReaderView
        decreases n,
    {
        if n == 0 {
            self
        } else {
            self.after_action().after_actions((n - 1) as nat)
        }
    }
}

impl View for StreamReader {
    type V = StreamReaderView;

    closed spec fn view(&self) -> StreamReaderView {
        StreamReaderView {
            stream_key: self.stream_key@,
            last_id: self.last_id@,
            connected: self.connected,
            ended: self.ended,
            received: self.received@,
        }
    }
}

impl StreamReader {
    /// A reader of the stream at `stream_key` from `position` on, not yet connected.
    pub fn new(stream_key: String, position: StreamPosition) -> (reader: StreamReader)
        ensures
            reader@ == (StreamReaderView {
                stream_key: stream_key@,
                last_id: position.id(),
                connected: false,
                ended: false,
                received: Seq::empty(),
            }),
    {
        StreamReader {
            stream_key,
            last_id: position.into_id(),
            connected: false,
            ended: false,
            received: Vec::new(),
        }
    }

    /// What is done next.
    pub fn next(&mut self) -> (action: ReaderAction)
        ensures
            action@ == old(self)@.action(),
            final(self)@ == old(self)@.after_action(),
    {
        if self.received.len() > 0 {
            let ghost before = self.received@;
            let entry = self.received.remove(0);
            self.last_id = entry.id.clone();
            assert(self.received@ =~= before.drop_first());
            ReaderAction::Deliver(entry)
        } else if self.ended {
            ReaderAction::End
        } else if !self.connected {
            ReaderAction::Connect
        } else {
            ReaderAction::Read(
                ReadRequest {
                    stream_key: self.stream_key.clone(),
                    id: self.last_id.clone(),
                    consumer: None,
                    block: Some(BLOCK_MILLIS),
                    count: READ_COUNT,
                },
            )
        }
    }

    /// Takes note of a new connection.
    pub fn on_connected(&mut self)
        ensures
            final(self)@ == (StreamReaderView { connected: true, ..old(self)@ }),
    {
        self.connected = true;
    }

    /// Takes note of what a read gave, `None` where it failed.
    pub fn on_reply(&mut self, reply: Option<Vec<StreamEntry>>)
        ensures
            final(self)@ == old(self)@.after_reply(
                match reply {
                    Some(entries) => Some(entries@),
                    None => None,
                },
            ),
    {
        match reply {
            Some(entries) => {
                let mut entries = entries;
                self.received.append(&mut entries);
            },
            None => {
                self.connected = false;
                self.ended = true;
            },
        }
    }

    /// Starts again behind the last entry that was handed on.
    pub fn restart(&mut self)
        ensures
            final(self)@ == (StreamReaderView { ended: false, ..old(self)@ }),
    {
        self.ended = false;
    }
}

/// What a read gives is handed on entry by entry, in order, each once, and then the next read
/// asks for what is behind the last entry.
pub proof fn law_replies_are_handed_on_in_order(
    reader: StreamReaderView,
    entries: Seq<StreamEntry>,
    n: nat,
)
    requires
        reader.received.len() == 0,
        n <= entries.len(),
    ensures
        ({
            let state = reader.after_reply(Some(entries)).after_actions(n);
            &&& state.received == entries.skip(n as int)
            &&& state.last_id == if n == 0 { reader.last_id } else { entries[n - 1].id@ }
            &&& n < entries.len() ==> state.action() == ActionView::Deliver(entries[n as int])
            &&& n == entries.len() && reader.connected && !reader.ended ==> (state.action() matches ActionView::Read(
                request,
            ) && request.id == state.last_id && request.stream_key == reader.stream_key)
        }),
{
    let start = reader.after_reply(Some(entries));
    assert(start.received =~= entries);
    lemma_after_actions(start, n);
}

proof fn lemma_after_actions(reader: StreamReaderView, n: nat)
    requires
        n <= reader.received.len(),
    ensures
        reader.after_actions(n) == (StreamReaderView {
            received: reader.received.skip(n as int),
            last_id: if n == 0 { reader.last_id } else { reader.received[n - 1].id@ },
            ..reader
        }),
    decreases n,
{
    if n == 0 {
        assert(reader.received.skip(0) =~= reader.received);
    } else {
        let next = reader.after_action();
        lemma_after_actions(next, (n - 1) as nat);
        assert(next.received.skip(n - 1) =~= reader.received.skip(n as int));
    }
}

/// A failed read ends the reader and loses no place: restarted, it connects again, and then reads
/// on behind the last entry that it handed on.
pub proof fn law_restarting_keeps_the_place(reader: StreamReaderView)
    requires
        reader.received.len() == 0,
    ensures
        ({
            let failed = reader.after_reply(None);
            let restarted = StreamReaderView { ended: false, ..failed };
            let connected = StreamReaderView { connected: true, ..restarted };
            &&& failed.action() is End
            &&& restarted.action() is Connect
            &&& connected.action() matches ActionView::Read(request) && request.id == reader.last_id
        }),
{
}

}
