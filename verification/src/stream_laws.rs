//! What readers of streams ask for and do.
use crate::consumer_groups;
use crate::consumer_groups::{GroupReaderView, PhaseView};
use crate::streams::{ActionView, ReadRequest, ReaderAction, StreamEntry, StreamPosition, StreamReaderView};
use vstd::prelude::*;

verus! {

/// Positions are asked for as `0`, as `$`, or as the id behind which a reader starts.
pub proof fn law_positions(id: String)
    ensures
        StreamPosition::Beginning.id() == "0"@,
        StreamPosition::NewOnly.id() == "$"@,
        StreamPosition::After(id).id() == id@,
{
}

/// A connected reader asks its own stream for what is behind the last entry that it handed on. It
/// waits for five seconds, takes at most a hundred entries, and is in no group.
pub proof fn law_what_a_reader_reads(reader: StreamReaderView)
    requires
        reader.received.len() == 0,
        reader.connected,
        !reader.ended,
    ensures
        reader.action() matches ActionView::Read(request) && {
            &&& request.stream_key == reader.stream_key
            &&& request.id == reader.last_id
            &&& request.consumer is None
            &&& request.block == Some(5000usize)
            &&& request.count == 100
        },
        reader.after_action() == reader,
{
}

/// A reader hands on what it received first, one entry at a time, and remembers it as the last one;
/// nothing else changes. A reader that is not connected connects.
pub proof fn law_what_a_reader_does(reader: StreamReaderView, entry: StreamEntry, rest: Seq<StreamEntry>)
    ensures
        ({
            let holding = StreamReaderView { received: seq![entry] + rest, ..reader };
            &&& holding.action() == ActionView::Deliver(entry)
            &&& holding.after_action() == (StreamReaderView { received: rest, last_id: entry.id@, ..reader })
        }),
        ({
            let idle = StreamReaderView { received: Seq::empty(), connected: false, ended: false, ..reader };
            idle.action() is Connect && idle.after_action() == idle
        }),
{
    let holding = StreamReaderView { received: seq![entry] + rest, ..reader };
    assert(holding.received[0] == entry);
    assert(holding.received.drop_first() =~= rest);
}

/// A reader keeps all that a read gives, behind what it still holds; a failed read ends it. The
/// place in the stream is kept either way.
pub proof fn law_what_a_reader_keeps(reader: StreamReaderView, entries: Seq<StreamEntry>)
    ensures
        reader.after_reply(Some(entries)).received == reader.received + entries,
        reader.after_reply(Some(entries)).last_id == reader.last_id,
        reader.after_reply(Some(entries)).stream_key == reader.stream_key,
        reader.after_reply(Some(entries)).connected == reader.connected,
        reader.after_reply(Some(entries)).ended == reader.ended,
        reader.after_reply(None).received == reader.received,
        reader.after_reply(None).last_id == reader.last_id,
        reader.after_reply(None).stream_key == reader.stream_key,
        reader.after_reply(None).ended,
{
}

/// A consumer asks its own stream, in its own group and under its own name: for what it did not
/// acknowledge, behind some id and without waiting, or for what no consumer was given, for which
/// it waits for five seconds. It takes at most a hundred entries.
pub proof fn law_what_a_consumer_reads(reader: GroupReaderView, cursor: Seq<char>)
    requires
        reader.received.len() == 0,
    ensures
        reader.phase == PhaseView::Again(cursor) ==> (reader.action() matches ActionView::Read(request) && {
            &&& request.stream_key == reader.stream_key
            &&& request.id == cursor
            &&& request.consumer == Some((reader.group, reader.consumer))
            &&& request.block is None
            &&& request.count == 100
        }),
        reader.phase is New ==> (reader.action() matches ActionView::Read(request) && {
            &&& request.stream_key == reader.stream_key
            &&& request.id == ">"@
            &&& request.consumer == Some((reader.group, reader.consumer))
            &&& request.block == Some(5000usize)
            &&& request.count == 100
        }),
        reader.phase is Disconnected ==> reader.action() is Connect,
        reader.after_action() == reader,
        reader.after_connect().phase == PhaseView::Again("0"@),
{
}

/// A consumer hands on what it received first, one entry at a time; while it takes entries again,
/// the next read asks for what is behind the last one. All that a read gives is kept.
pub proof fn law_what_a_consumer_does(reader: GroupReaderView, entry: StreamEntry, rest: Seq<StreamEntry>)
    ensures
        ({
            let holding = GroupReaderView { received: seq![entry] + rest, ..reader };
            let after = holding.after_action();
            &&& holding.action() == ActionView::Deliver(entry)
            &&& after.received == rest
            &&& after.stream_key == reader.stream_key && after.group == reader.group && after.consumer
                == reader.consumer
            &&& reader.phase is Again ==> after.phase == PhaseView::Again(entry.id@)
            &&& !(reader.phase is Again) ==> after.phase == reader.phase
        }),
        reader.after_reply(Some(rest)).received == reader.received + rest,
        reader.after_reply(None).received == reader.received,
        reader.after_reply(Some(rest)).stream_key == reader.stream_key,
        reader.after_reply(Some(rest)).group == reader.group,
        reader.after_reply(Some(rest)).consumer == reader.consumer,
        rest.len() > 0 ==> reader.after_reply(Some(rest)).phase == reader.phase,
{
    let holding = GroupReaderView { received: seq![entry] + rest, ..reader };
    assert(holding.received[0] == entry);
    assert(holding.received.drop_first() =~= rest);
}

/// A group is already there exactly where the error has the code `BUSYGROUP`.
pub proof fn law_groups_that_are_there(code: &str)
    ensures
        consumer_groups::is_busy(Some(code)) <==> code@ == "BUSYGROUP"@,
        !consumer_groups::is_busy(None),
{
}

/// A request is for what it says, and an action is what it says.
pub proof fn law_contents_of_requests(request: ReadRequest, entry: StreamEntry)
    ensures
        request@.stream_key == request.stream_key@,
        request@.id == request.id@,
        request@.consumer is Some == request.consumer is Some,
        request.consumer matches Some(c) ==> request@.consumer == Some((c.0@, c.1@)),
        request@.block == request.block,
        request@.count == request.count,
        ReaderAction::Read(request)@ == ActionView::Read(request@),
        ReaderAction::Deliver(entry)@ == ActionView::Deliver(entry),
        ReaderAction::Connect@ == ActionView::Connect,
        ReaderAction::End@ == ActionView::End,
{
}

}
