//! [`DppLifecycleTrigger`]: lifecycle events from a feed of JSON lines.
//!
//! Each line of the feed is one JSON object:
//!
//! ```json
//! { "lifecycle": "onProductionComplete", "tags": ["public"], "payload": {} }
//! ```
//!
//! The lifecycle becomes the first tag of the event and the other tags follow;
//! without a payload the event carries `null`. A line that says no event is
//! skipped, and the feed goes on. The feed is a file that others append to, in as
//! many writes as they like: a line counts once its newline is there, or once it
//! says an event without it.
//! [`FeedTail`] decides what to do with the file next, and whoever drives it
//! watches, seeks and reads.

use std::path::PathBuf;
use vstd::prelude::*;
use vstd::string::*;
use vstd::utf8::{
    decode_utf8, decode_utf8_split, encode_utf8, encode_utf8_decode_utf8, encode_utf8_valid_utf8,
    is_ascii_chars, is_ascii_chars_encode_utf8, is_char_boundary_iff_not_is_continuation_byte,
    valid_utf8, valid_utf8_concat,
};
use crate::json::{
    lemma_text_items, member, text_items, text_list, text_member, text_trees, texts_of, Json,
    JsonTree,
};
use crate::outside::{json_read, read_utf8, utf8_fault};
use crate::receipt::{EventView, TriggerError, TriggerEvent, TriggerFault, TriggerId};
use crate::text::{
    concat2, concat3, decimal, decimal_text, law_trimming_keeps_what_stands_between,
    lemma_trim_newline, texts, trim, trimmed, white_space,
};

verus! {

broadcast use vstd::string::group_string_axioms;

// -------------------------------------------------------------- lines

/// The event that the JSON of a line says, if it names a lifecycle.
pub open spec fn event_said(source: Seq<char>, t: JsonTree) -> Option<EventView> {
    match text_member(t, "lifecycle"@) {
        Some(lifecycle) => Some(
            EventView {
                source,
                tags: seq![lifecycle] + text_list(t, "tags"@),
                payload: match member(t, "payload"@) {
                    Some(payload) => payload,
                    None => JsonTree::Null,
                },
            },
        ),
        None => None,
    }
}

/// Why a line says no event.
#[derive(Clone, Debug, PartialEq, Eq)]
pub enum LineFault {
    /// It is no UTF-8.
    NotUtf8(String),
    /// It is no JSON.
    NotJson(String),
    /// It names no lifecycle.
    NoLifecycle,
}

/// What a [`LineFault`] says.
pub enum LineFaultView {
    NotUtf8(Seq<char>),
    NotJson(Seq<char>),
    NoLifecycle,
}

impl View for LineFault {
    type V = LineFaultView;

    open spec fn view(&self) -> LineFaultView {
        match self {
            LineFault::NotUtf8(fault) => LineFaultView::NotUtf8(fault@),
            LineFault::NotJson(fault) => LineFaultView::NotJson(fault@),
            LineFault::NoLifecycle => LineFaultView::NoLifecycle,
        }
    }
}

/// The event that a line says, or why it says none.
pub open spec fn event_read(source: Seq<char>, line: Seq<char>) -> Result<
    EventView,
    LineFaultView,
> {
    match json_read(encode_utf8(line)) {
        Ok(t) => match event_said(source, t) {
            Some(event) => Ok(event),
            None => Err(LineFaultView::NoLifecycle),
        },
        Err(fault) => Err(LineFaultView::NotJson(fault)),
    }
}

/// The event that a line says, if it is JSON and names a lifecycle.
pub open spec fn parsed(source: Seq<char>, line: Seq<char>) -> Option<EventView> {
    match event_read(source, line) {
        Ok(event) => Some(event),
        Err(_) => None,
    }
}

/// The event that the JSON of a line says.
pub fn event_of(source: &TriggerId, v: &Json) -> (r: Option<TriggerEvent>)
    ensures
        match r {
            Some(event) => event_said(source.0@, v@) == Some(event@),
            None => event_said(source.0@, v@) is None,
        },
        r matches Some(event) ==> {
            &&& v@ is Object
            &&& event.source.0@ == source.0@
            &&& event.tags@.len() >= 1
            &&& v@->Object_0.dom().contains("lifecycle"@)
            &&& v@->Object_0["lifecycle"@] == JsonTree::Text(event.tags@[0]@)
            &&& event.payload@ == if v@->Object_0.dom().contains("payload"@) {
                v@->Object_0["payload"@]
            } else {
                JsonTree::Null
            }
        },
{
    let lifecycle: String = match v.get("lifecycle") {
        Some(l) => match l.as_str() {
            Some(l) => l.to_owned(),
            None => {
                return None;
            },
        },
        None => {
            return None;
        },
    };
    let ghost first = lifecycle@;
    let mut tags: Vec<String> = Vec::new();
    tags.push(lifecycle);
    assert(texts(tags@) =~= seq![first]);
    match v.get("tags") {
        Some(Json::Array(items)) => {
            let mut more: Vec<String> = texts_of(items);
            let ghost before = tags@;
            let ghost after = more@;
            tags.append(&mut more);
            assert(texts(tags@) =~= texts(before) + texts(after));
        },
        _ => {
            assert(texts(tags@) =~= seq![first] + seq![]);
        },
    }
    let payload: Json = match v.get("payload") {
        Some(payload) => payload.clone(),
        None => Json::Null,
    };
    assert(texts(tags@)[0] == tags@[0]@);
    Some(TriggerEvent { source: TriggerId(source.0.clone()), tags, payload })
}

/// The event that a line of the feed says, or why it says none.
pub fn read_event(source: &TriggerId, line: &str) -> (r: Result<TriggerEvent, LineFault>)
    ensures
        match r {
            Ok(event) => event_read(source.0@, line@) == Ok::<EventView, LineFaultView>(event@),
            Err(fault) => event_read(source.0@, line@) == Err::<EventView, LineFaultView>(fault@),
        },
        match json_read(encode_utf8(line@)) {
            Err(fault) => r is Err && r->Err_0@ == LineFaultView::NotJson(fault),
            Ok(t) => match event_said(source.0@, t) {
                Some(event) => r is Ok && r->Ok_0@ == event,
                None => r is Err && r->Err_0@ == LineFaultView::NoLifecycle,
            },
        },
{
    match Json::read(line.as_bytes()) {
        Ok(v) => match event_of(source, &v) {
            Some(event) => Ok(event),
            None => Err(LineFault::NoLifecycle),
        },
        Err(fault) => Err(LineFault::NotJson(fault)),
    }
}

/// The event that a line of the feed says; none where the line is no JSON or
/// names no lifecycle.
pub fn parse_line(source: &TriggerId, line: &str) -> (r: Option<TriggerEvent>)
    ensures
        match r {
            Some(event) => parsed(source.0@, line@) == Some(event@),
            None => parsed(source.0@, line@) is None,
        },
        match json_read(encode_utf8(line@)) {
            Err(_) => r is None,
            Ok(t) => match r {
                Some(event) => event_said(source.0@, t) == Some(event@),
                None => event_said(source.0@, t) is None,
            },
        },
{
    match read_event(source, line) {
        Ok(event) => Some(event),
        Err(_) => None,
    }
}

// --------------------------------------------------------------- feed

/// What the watcher of the feed's file reports.
#[derive(Clone, Copy, Debug, PartialEq, Eq)]
pub enum FeedNotice {
    /// The file was modified.
    Modified,
    /// The file was created.
    Created,
    /// Something else happened to it.
    Other,
    /// The watcher failed to say what happened.
    Failed,
}

/// What came of the last thing that a [`FeedTail`] asked for.
#[derive(Clone, Debug, PartialEq, Eq)]
pub enum FeedInput {
    /// The watcher reported something.
    Noticed(FeedNotice),
    /// The file stands at the position asked for.
    Sought,
    /// It could not be brought there.
    SeekFailed(String),
    /// These bytes were read, up to and with the next newline, or up to the end
    /// of the file.
    LineRead(Vec<u8>),
    /// No line could be read.
    ReadFailed(String),
}

/// What a [`FeedTail`] wants done next.
#[derive(Clone, Debug, PartialEq, Eq)]
pub enum FeedAction {
    /// Wait for the watcher.
    Wait,
    /// Bring the file to this position.
    Seek(u64),
    /// Read one line.
    ReadLine,
    /// Hand this event out, then read one line.
    Emit(TriggerEvent),
    /// Report that a line was skipped, then read one line.
    Skip(LineFault),
    /// Stop with this error.
    Stop(TriggerError),
}

/// What a [`FeedInput`] says.
pub enum FeedInputView {
    Noticed(FeedNotice),
    Sought,
    SeekFailed(Seq<char>),
    LineRead(Seq<u8>),
    ReadFailed(Seq<char>),
}

/// What a [`FeedAction`] says.
pub enum FeedActionView {
    Wait,
    Seek(int),
    ReadLine,
    Emit(EventView),
    Skip(LineFaultView),
    Stop(TriggerFault),
}

impl View for FeedInput {
    type V = FeedInputView;

    open spec fn view(&self) -> FeedInputView {
        match self {
            FeedInput::Noticed(notice) => FeedInputView::Noticed(*notice),
            FeedInput::Sought => FeedInputView::Sought,
            FeedInput::SeekFailed(fault) => FeedInputView::SeekFailed(fault@),
            FeedInput::LineRead(bytes) => FeedInputView::LineRead(bytes@),
            FeedInput::ReadFailed(fault) => FeedInputView::ReadFailed(fault@),
        }
    }
}

impl View for FeedAction {
    type V = FeedActionView;

    open spec fn view(&self) -> FeedActionView {
        match self {
            FeedAction::Wait => FeedActionView::Wait,
            FeedAction::Seek(to) => FeedActionView::Seek(*to as int),
            FeedAction::ReadLine => FeedActionView::ReadLine,
            FeedAction::Emit(event) => FeedActionView::Emit(event@),
            FeedAction::Skip(fault) => FeedActionView::Skip(fault@),
            FeedAction::Stop(error) => FeedActionView::Stop(error@),
        }
    }
}

/// Whether a line is there in full, with the newline at its end.
pub open spec fn finished(bytes: Seq<u8>) -> bool {
    bytes.len() > 0 && bytes.last() == 10
}

/// What to do about a line as it stands in the feed. White space around it does
/// not count, and a line of nothing else is passed over.
pub open spec fn line_action(source: Seq<char>, bytes: Seq<u8>) -> FeedActionView {
    let line = trimmed(decode_utf8(bytes));
    if !valid_utf8(bytes) {
        FeedActionView::Skip(LineFaultView::NotUtf8(utf8_fault(bytes)))
    } else if line.len() == 0 {
        FeedActionView::ReadLine
    } else {
        match event_read(source, line) {
            Ok(event) => FeedActionView::Emit(event),
            Err(fault) => FeedActionView::Skip(fault),
        }
    }
}

/// The event that a line as it stands in the feed says, if it says one.
pub open spec fn line_event(source: Seq<char>, bytes: Seq<u8>) -> Option<EventView> {
    match line_action(source, bytes) {
        FeedActionView::Emit(event) => Some(event),
        _ => None,
    }
}

/// Whether it is settled what a line says: it is there in full, or it says an event
/// already.
pub open spec fn settled(source: Seq<char>, bytes: Seq<u8>) -> bool {
    finished(bytes) || line_event(source, bytes) is Some
}

/// How many bytes came with an input.
pub open spec fn read_with(input: FeedInputView) -> nat {
    match input {
        FeedInputView::LineRead(bytes) => bytes.len(),
        _ => 0,
    }
}

/// What to do next, given what came of the last thing, at the position `position`.
pub open spec fn next_action(
    source: Seq<char>,
    position: int,
    input: FeedInputView,
) -> FeedActionView {
    match input {
        FeedInputView::Noticed(FeedNotice::Modified) => FeedActionView::Seek(position),
        FeedInputView::Noticed(FeedNotice::Created) => FeedActionView::Seek(position),
        FeedInputView::Noticed(_) => FeedActionView::Wait,
        FeedInputView::Sought => FeedActionView::ReadLine,
        FeedInputView::SeekFailed(fault) => FeedActionView::Stop(
            TriggerFault::Terminated(
                "seek to "@ + decimal(position as nat) + (": "@ + fault),
            ),
        ),
        FeedInputView::LineRead(bytes) => if settled(source, bytes) {
            line_action(source, bytes)
        } else {
            FeedActionView::Wait
        },
        FeedInputView::ReadFailed(fault) => FeedActionView::Stop(
            TriggerFault::Terminated("read line: "@ + fault),
        ),
    }
}

/// How many bytes of the feed were taken: those of a line, once it is settled what
/// it says.
pub open spec fn taken(source: Seq<char>, input: FeedInputView) -> int {
    match input {
        FeedInputView::LineRead(bytes) => if settled(source, bytes) {
            bytes.len() as int
        } else {
            0
        },
        _ => 0,
    }
}

/// What to do about a line as it stands in the feed.
pub fn act_on_line(source: &TriggerId, bytes: &Vec<u8>) -> (r: FeedAction)
    ensures
        r@ == line_action(source.0@, bytes@),
{
    let text: String = match read_utf8(bytes.as_slice()) {
        Ok(text) => text,
        Err(fault) => {
            return FeedAction::Skip(LineFault::NotUtf8(fault));
        },
    };
    let line: String = trim(text.as_str());
    if line.as_str().is_empty() {
        return FeedAction::ReadLine;
    }
    match read_event(source, line.as_str()) {
        Ok(event) => FeedAction::Emit(event),
        Err(fault) => FeedAction::Skip(fault),
    }
}

/// Follows the end of a feed: how far it was read, and what to do next.
#[derive(Clone, Debug)]
pub struct FeedTail {
    source: TriggerId,
    position: u64,
}

impl FeedTail {
    /// The source that the events name.
    pub closed spec fn spec_source(&self) -> Seq<char> {
        self.source.0@
    }

    /// How many bytes of the feed were read.
    pub closed spec fn spec_position(&self) -> int {
        self.position as int
    }

    /// Follows a feed from the position `position` on.
    pub fn new(source: TriggerId, position: u64) -> (r: Self)
        ensures
            r.spec_source() == source.0@,
            r.spec_position() == position,
    {
        FeedTail { source, position }
    }

    /// How many bytes of the feed were read.
    pub fn position(&self) -> (r: u64)
        ensures
            r == self.spec_position(),
    {
        self.position
    }

    /// Takes what came of the last thing asked for, and says what to do next.
    pub fn step(&mut self, input: FeedInput) -> (r: FeedAction)
        requires
            old(self).spec_position() + read_with(input@) <= u64::MAX,
        ensures
            r@ == next_action(old(self).spec_source(), old(self).spec_position(), input@),
            final(self).spec_source() == old(self).spec_source(),
            final(self).spec_position() == old(self).spec_position() + taken(
                old(self).spec_source(),
                input@,
            ),
    {
        match input {
            FeedInput::Noticed(notice) => match notice {
                FeedNotice::Modified | FeedNotice::Created => FeedAction::Seek(self.position),
                FeedNotice::Other | FeedNotice::Failed => FeedAction::Wait,
            },
            FeedInput::Sought => FeedAction::ReadLine,
            FeedInput::SeekFailed(fault) => {
                let at: String = decimal_text(self.position);
                let why: String = concat2(": ", fault.as_str());
                FeedAction::Stop(
                    TriggerError::Terminated(concat3("seek to ", at.as_str(), why.as_str())),
                )
            },
            FeedInput::LineRead(bytes) => {
                let n: usize = bytes.len();
                let action = act_on_line(&self.source, &bytes);
                if n == 0 || bytes[n - 1] != 10 {
                    // The rest of the line is still to come, unless what is there
                    // says an event.
                    match action {
                        FeedAction::Emit(_) => {},
                        _ => {
                            return FeedAction::Wait;
                        },
                    }
                }
                self.position = self.position + n as u64;
                action
            },
            FeedInput::ReadFailed(fault) => FeedAction::Stop(
                TriggerError::Terminated(concat2("read line: ", fault.as_str())),
            ),
        }
    }
}

// ------------------------------------------------------------ trigger

/// What a trigger does, one thing after another, to start.
#[derive(Clone, Copy, Debug, PartialEq, Eq)]
pub enum SetupStep {
    /// Open the feed's file.
    OpenFeed,
    /// Go to its end: only what is appended from now on counts.
    SeekEnd,
    /// Make a watcher.
    MakeWatcher,
    /// Let it watch the file.
    Watch,
}

/// The message for a step that failed, on the feed at `path`.
pub open spec fn setup_message(step: SetupStep, path: Seq<char>, fault: Seq<char>) -> Seq<char> {
    match step {
        SetupStep::OpenFeed => "open feed "@ + path + (": "@ + fault),
        SetupStep::SeekEnd => "seek end: "@ + fault,
        SetupStep::MakeWatcher => "watcher init: "@ + fault,
        SetupStep::Watch => "watch "@ + path + (": "@ + fault),
    }
}

/// The error for a step that failed, on the feed at `path`.
pub fn setup_error(step: SetupStep, path: &str, fault: &str) -> (r: TriggerError)
    ensures
        r@ == TriggerFault::Setup(setup_message(step, path@, fault@)),
        r matches TriggerError::Setup(message) && message@ == match step {
            SetupStep::OpenFeed => "open feed "@ + path@ + (": "@ + fault@),
            SetupStep::SeekEnd => "seek end: "@ + fault@,
            SetupStep::MakeWatcher => "watcher init: "@ + fault@,
            SetupStep::Watch => "watch "@ + path@ + (": "@ + fault@),
        },
{
    let why: String = concat2(": ", fault);
    TriggerError::Setup(
        match step {
            SetupStep::OpenFeed => concat3("open feed ", path, why.as_str()),
            SetupStep::SeekEnd => concat2("seek end: ", fault),
            SetupStep::MakeWatcher => concat2("watcher init: ", fault),
            SetupStep::Watch => concat3("watch ", path, why.as_str()),
        },
    )
}

/// Fires lifecycle events that are appended to a feed of JSON lines.
#[derive(Debug)]
pub struct DppLifecycleTrigger {
    id: TriggerId,
    feed_path: PathBuf,
}

impl DppLifecycleTrigger {
    /// The name of this trigger.
    pub closed spec fn spec_id(&self) -> Seq<char> {
        self.id.0@
    }

    /// Where the feed is.
    pub closed spec fn spec_feed_path(&self) -> PathBuf {
        self.feed_path
    }

    /// A trigger for the feed at `feed_path`.
    pub fn new(id: &str, feed_path: PathBuf) -> (r: Self)
        ensures
            r.spec_id() == id@,
            r.spec_feed_path() == feed_path,
    {
        DppLifecycleTrigger { id: TriggerId(id.to_owned()), feed_path }
    }

    /// The name of this trigger.
    pub fn id(&self) -> (r: TriggerId)
        ensures
            r.0@ == self.spec_id(),
    {
        TriggerId(self.id.0.clone())
    }

    /// Where the feed is.
    pub fn feed_path(&self) -> (r: &PathBuf)
        ensures
            *r == self.spec_feed_path(),
    {
        &self.feed_path
    }

    /// Follows the feed from its end, `position`, on.
    pub fn tail(&self, position: u64) -> (r: FeedTail)
        ensures
            r.spec_source() == self.spec_id(),
            r.spec_position() == position,
    {
        FeedTail::new(self.id(), position)
    }
}

impl Clone for DppLifecycleTrigger {
    fn clone(&self) -> (r: Self)
        ensures
            r.spec_id() == self.spec_id(),
            r.spec_feed_path() == self.spec_feed_path(),
    {
        DppLifecycleTrigger { id: self.id(), feed_path: self.feed_path.clone() }
    }
}

// --------------------------------------------------------------- laws

/// The events that the lines of a feed say, in their order.
pub open spec fn delivered(source: Seq<char>, lines: Seq<Seq<u8>>) -> Seq<EventView>
    decreases lines.len(),
{
    if lines.len() == 0 {
        seq![]
    } else {
        match line_event(source, lines.last()) {
            Some(event) => delivered(source, lines.drop_last()).push(event),
            None => delivered(source, lines.drop_last()),
        }
    }
}

/// The events that a tail at the position `position` hands out, given these
/// inputs one after another.
pub open spec fn emitted(source: Seq<char>, position: int, inputs: Seq<FeedInputView>) -> Seq<
    EventView,
>
    decreases inputs.len(),
{
    if inputs.len() == 0 {
        seq![]
    } else {
        let before = emitted(source, position, inputs.drop_last());
        let at = position_after(source, position, inputs.drop_last());
        match next_action(source, at, inputs.last()) {
            FeedActionView::Emit(event) => before.push(event),
            _ => before,
        }
    }
}

/// Where a tail stands after these inputs.
pub open spec fn position_after(source: Seq<char>, position: int, inputs: Seq<FeedInputView>) -> int
    decreases inputs.len(),
{
    if inputs.len() == 0 {
        position
    } else {
        position_after(source, position, inputs.drop_last()) + taken(source, inputs.last())
    }
}

/// The lines among the inputs of a tail of which it is settled what they say, in
/// their order.
pub open spec fn lines_read(source: Seq<char>, inputs: Seq<FeedInputView>) -> Seq<Seq<u8>>
    decreases inputs.len(),
{
    if inputs.len() == 0 {
        seq![]
    } else {
        match inputs.last() {
            FeedInputView::LineRead(bytes) => if settled(source, bytes) {
                lines_read(source, inputs.drop_last()).push(bytes)
            } else {
                lines_read(source, inputs.drop_last())
            },
            _ => lines_read(source, inputs.drop_last()),
        }
    }
}

/// Whatever a tail gets to hear, it hands out the events that the lines it read
/// say: all of them, in their order, and no other.
pub proof fn law_tail_delivers_what_lines_say(
    source: Seq<char>,
    position: int,
    inputs: Seq<FeedInputView>,
)
    ensures
        emitted(source, position, inputs) == delivered(source, lines_read(source, inputs)),
    decreases inputs.len(),
{
    if inputs.len() > 0 {
        law_tail_delivers_what_lines_say(source, position, inputs.drop_last());
        let before = lines_read(source, inputs.drop_last());
        match inputs.last() {
            FeedInputView::LineRead(bytes) => {
                assert(before.push(bytes).drop_last() =~= before);
            },
            _ => {},
        }
    }
}

/// A tail never goes back.
pub proof fn law_tail_never_goes_back(source: Seq<char>, position: int, inputs: Seq<FeedInputView>)
    ensures
        position_after(source, position, inputs) >= position,
    decreases inputs.len(),
{
    if inputs.len() > 0 {
        law_tail_never_goes_back(source, position, inputs.drop_last());
    }
}

/// A line that is not there in full, and says no event as it is, is waited for and
/// read again from its start, when more of it was written.
pub proof fn law_unfinished_line_is_read_again(
    source: Seq<char>,
    position: int,
    bytes: Seq<u8>,
)
    requires
        !finished(bytes),
        line_event(source, bytes) is None,
    ensures
        next_action(source, position, FeedInputView::LineRead(bytes)) is Wait,
        taken(source, FeedInputView::LineRead(bytes)) == 0,
        next_action(
            source,
            position + taken(source, FeedInputView::LineRead(bytes)),
            FeedInputView::Noticed(FeedNotice::Modified),
        ) == FeedActionView::Seek(position),
{
}

/// Whether `bytes` stand in the feed from the position `at` on, up to a newline or
/// to what is written so far.
pub open spec fn reads_at(feed: Seq<u8>, at: int, bytes: Seq<u8>) -> bool {
    &&& 0 <= at
    &&& at + bytes.len() <= feed.len()
    &&& bytes == feed.subrange(at, at + bytes.len())
    &&& forall|i: int| 0 <= i < bytes.len() - 1 ==> #[trigger] bytes[i] != 10
}

/// Whether a tail at the position `position` gets to read what stands in the feed
/// where it asked for it.
pub open spec fn faithful(
    source: Seq<char>,
    feed: Seq<u8>,
    position: int,
    inputs: Seq<FeedInputView>,
) -> bool
    decreases inputs.len(),
{
    inputs.len() == 0 || {
        &&& faithful(source, feed, position, inputs.drop_last())
        &&& inputs.last() matches FeedInputView::LineRead(bytes) ==> reads_at(
            feed,
            position_after(source, position, inputs.drop_last()),
            bytes,
        )
    }
}

/// Lines one after another.
pub open spec fn joined(lines: Seq<Seq<u8>>) -> Seq<u8>
    decreases lines.len(),
{
    if lines.len() == 0 {
        seq![]
    } else {
        joined(lines.drop_last()) + lines.last()
    }
}

/// Whether `bytes` are one line, or one that says an event before its newline: there
/// is a newline at the end at most.
pub open spec fn one_line(source: Seq<char>, bytes: Seq<u8>) -> bool {
    settled(source, bytes) && forall|i: int|
        0 <= i < bytes.len() - 1 ==> #[trigger] bytes[i] != 10
}

/// A tail reads the lines of the feed one by one, from where it started to where
/// it stands: it leaves out none, and none runs into the next, whatever the watcher
/// reported and however many writes made up a line.
pub proof fn law_tail_reads_the_lines_of_the_feed(
    source: Seq<char>,
    feed: Seq<u8>,
    position: int,
    inputs: Seq<FeedInputView>,
)
    requires
        0 <= position <= feed.len(),
        faithful(source, feed, position, inputs),
    ensures
        position <= position_after(source, position, inputs) <= feed.len(),
        joined(lines_read(source, inputs)) == feed.subrange(
            position,
            position_after(source, position, inputs),
        ),
        forall|i: int|
            0 <= i < lines_read(source, inputs).len() ==> one_line(
                source,
                #[trigger] lines_read(source, inputs)[i],
            ),
    decreases inputs.len(),
{
    if inputs.len() == 0 {
        assert(feed.subrange(position, position) =~= seq![]);
    } else {
        let less = inputs.drop_last();
        law_tail_reads_the_lines_of_the_feed(source, feed, position, less);
        let before = lines_read(source, less);
        let at = position_after(source, position, less);
        if let FeedInputView::LineRead(bytes) = inputs.last() {
            if settled(source, bytes) {
                let now = lines_read(source, inputs);
                assert(now.drop_last() =~= before);
                assert(joined(now) =~= feed.subrange(position, at + bytes.len()));
                assert forall|i: int| 0 <= i < now.len() implies one_line(
                    source,
                    #[trigger] now[i],
                ) by {
                    if i < before.len() {
                        assert(now[i] == before[i]);
                    }
                }
            }
        }
    }
}

proof fn lemma_newline_is_trimmed(source: Seq<char>, bytes: Seq<u8>)
    requires
        valid_utf8(bytes),
    ensures
        valid_utf8(bytes.push(10)),
        line_action(source, bytes.push(10)) == line_action(source, bytes),
{
    let text = decode_utf8(bytes);
    let end = seq!['\n'];
    let ended = bytes.push(10);
    assert(is_ascii_chars(end));
    is_ascii_chars_encode_utf8(end);
    assert(encode_utf8(end) =~= seq![10u8]);
    encode_utf8_valid_utf8(end);
    encode_utf8_decode_utf8(end);
    valid_utf8_concat(bytes, seq![10u8]);
    assert(bytes + seq![10u8] =~= ended);
    let n = bytes.len() as int;
    assert(ended[n] == 10);
    is_char_boundary_iff_not_is_continuation_byte(ended, n);
    decode_utf8_split(ended, n);
    assert(ended.subrange(0, n) =~= bytes);
    assert(ended.subrange(n, ended.len() as int) =~= seq![10u8]);
    assert(decode_utf8(ended) =~= text.push('\n'));
    lemma_trim_newline(text);
}

/// The newline that comes after a line was delivered adds nothing: the line with
/// its newline says the one event that the line said, and so do the line and the
/// newline read one after the other.
pub proof fn law_newline_adds_no_event(source: Seq<char>, bytes: Seq<u8>)
    requires
        line_event(source, bytes) is Some,
    ensures
        delivered(source, seq![bytes.push(10)]) == seq![line_event(source, bytes)->Some_0],
        delivered(source, seq![bytes, seq![10u8]]) == seq![line_event(source, bytes)->Some_0],
{
    reveal_with_fuel(delivered, 3);
    let empty = Seq::<u8>::empty();
    lemma_newline_is_trimmed(source, bytes);
    lemma_newline_is_trimmed(source, empty);
    assert(empty.push(10) =~= seq![10u8]);
    assert(decode_utf8(empty) =~= Seq::<char>::empty());
    assert(seq![bytes.push(10)].drop_last() =~= seq![]);
    assert(seq![bytes, seq![10u8]].drop_last() =~= seq![bytes]);
    assert(seq![bytes].drop_last() =~= seq![]);
}

/// A line that says no event changes nothing in what the other lines deliver.
pub proof fn law_bad_line_is_skipped(
    source: Seq<char>,
    before: Seq<Seq<u8>>,
    line: Seq<u8>,
    after: Seq<Seq<u8>>,
)
    requires
        line_event(source, line) is None,
    ensures
        delivered(source, before + seq![line] + after) == delivered(source, before + after),
    decreases after.len(),
{
    if after.len() == 0 {
        assert((before + seq![line] + after).drop_last() =~= before);
        assert(before + after =~= before);
    } else {
        let less = after.drop_last();
        law_bad_line_is_skipped(source, before, line, less);
        assert((before + seq![line] + after).drop_last() =~= before + seq![line] + less);
        assert((before + after).drop_last() =~= before + less);
    }
}

/// An event has the lifecycle for its first tag, and after it the tags that the
/// line lists; a line that names no lifecycle says no event.
pub proof fn law_lifecycle_comes_first(source: Seq<char>, t: JsonTree)
    ensures
        event_said(source, t) is Some <==> text_member(t, "lifecycle"@) is Some,
        event_said(source, t) is Some ==> {
            let event = event_said(source, t)->Some_0;
            &&& event.source == source
            &&& event.tags.len() == 1 + text_list(t, "tags"@).len()
            &&& Some(event.tags[0]) == text_member(t, "lifecycle"@)
            &&& event.tags.skip(1) == text_list(t, "tags"@)
        },
{
    if let Some(lifecycle) = text_member(t, "lifecycle"@) {
        assert((seq![lifecycle] + text_list(t, "tags"@)).skip(1) =~= text_list(t, "tags"@));
    }
}

/// An object with a lifecycle says an event: it names the source it came from, its
/// first tag is the lifecycle, and its payload is the member `payload`, of whatever
/// kind, or null where there is none.
pub proof fn law_event_carries_lifecycle_and_payload(
    source: Seq<char>,
    members: Map<Seq<char>, JsonTree>,
    lifecycle: Seq<char>,
)
    requires
        members.dom().contains("lifecycle"@),
        members["lifecycle"@] == JsonTree::Text(lifecycle),
    ensures
        event_said(source, JsonTree::Object(members)) is Some,
        ({
            let event = event_said(source, JsonTree::Object(members))->Some_0;
            &&& event.source == source
            &&& event.tags.len() >= 1
            &&& event.tags[0] == lifecycle
            &&& members.dom().contains("payload"@) ==> event.payload == members["payload"@]
            &&& !members.dom().contains("payload"@) ==> event.payload == JsonTree::Null
        }),
{
}

/// The tags of an event after the lifecycle are the texts in the array `tags`, each
/// as it is and in their order; there are none where there is no such array.
pub proof fn law_event_carries_the_tags_of_the_line(
    source: Seq<char>,
    members: Map<Seq<char>, JsonTree>,
    listed: Seq<Seq<char>>,
)
    requires
        event_said(source, JsonTree::Object(members)) is Some,
    ensures
        ({
            let tags = event_said(source, JsonTree::Object(members))->Some_0.tags;
            &&& members.dom().contains("tags"@) && members["tags"@] is Array
                && members["tags"@]->Array_0.len() == listed.len() && (forall|i: int|
                0 <= i < listed.len() ==> members["tags"@]->Array_0[i] == JsonTree::Text(
                    #[trigger] listed[i],
                )) ==> tags.skip(1) == listed
            &&& members.dom().contains("tags"@) && members["tags"@] is Array ==> tags.skip(1)
                == text_items(members["tags"@]->Array_0)
            &&& !(members.dom().contains("tags"@) && members["tags"@] is Array) ==> tags.len() == 1
        }),
{
    let t = JsonTree::Object(members);
    let tags = event_said(source, t)->Some_0.tags;
    assert(tags.skip(1) =~= text_list(t, "tags"@));
    if members.dom().contains("tags"@) && members["tags"@] is Array {
        let items = members["tags"@]->Array_0;
        if items.len() == listed.len() && (forall|i: int|
            0 <= i < listed.len() ==> items[i] == JsonTree::Text(#[trigger] listed[i])) {
            lemma_text_items(listed);
            assert forall|i: int| 0 <= i < items.len() implies items[i] == text_trees(listed)[i] by {
                assert(items[i] == JsonTree::Text(listed[i]));
            }
            assert(items =~= text_trees(listed));
        }
    }
}

/// Without a lifecycle that is a text there is no event.
pub proof fn law_no_event_without_lifecycle(source: Seq<char>, t: JsonTree)
    requires
        !(t is Object && t->Object_0.dom().contains("lifecycle"@)
            && t->Object_0["lifecycle"@] is Text),
    ensures
        event_said(source, t) is None,
{
}

/// A line says the event that its JSON says, whatever white space stands around it:
/// all of the text between the white space is read.
pub proof fn law_line_says_what_its_json_says(
    source: Seq<char>,
    before: Seq<char>,
    core: Seq<char>,
    after: Seq<char>,
)
    requires
        forall|i: int| 0 <= i < before.len() ==> white_space(#[trigger] before[i]),
        forall|i: int| 0 <= i < after.len() ==> white_space(#[trigger] after[i]),
        core.len() > 0,
        !white_space(core[0]) && !white_space(core.last()),
    ensures
        ({
            let action = line_action(source, encode_utf8(before + core + after));
            match json_read(encode_utf8(core)) {
                Err(fault) => action == FeedActionView::Skip(LineFaultView::NotJson(fault)),
                Ok(t) => match event_said(source, t) {
                    Some(event) => action == FeedActionView::Emit(event),
                    None => action == FeedActionView::Skip(LineFaultView::NoLifecycle),
                },
            }
        }),
{
    let text = before + core + after;
    encode_utf8_valid_utf8(text);
    encode_utf8_decode_utf8(text);
    law_trimming_keeps_what_stands_between(before, core, after);
}

/// A line of white space alone is passed over, and one that is no UTF-8 is skipped.
pub proof fn law_lines_without_text(source: Seq<char>, blank: Seq<char>, bytes: Seq<u8>)
    requires
        forall|i: int| 0 <= i < blank.len() ==> white_space(#[trigger] blank[i]),
        !valid_utf8(bytes),
    ensures
        line_action(source, encode_utf8(blank)) is ReadLine,
        line_action(source, bytes) == FeedActionView::Skip(
            LineFaultView::NotUtf8(utf8_fault(bytes)),
        ),
{
    let none = Seq::<char>::empty();
    encode_utf8_valid_utf8(blank);
    encode_utf8_decode_utf8(blank);
    assert(blank + none + none =~= blank);
    law_trimming_keeps_what_stands_between(blank, none, none);
}

/// Once its newline is there, a line is acted upon and all of its bytes are taken.
pub proof fn law_ended_line_is_taken(source: Seq<char>, position: int, line: Seq<u8>)
    ensures
        next_action(source, position, FeedInputView::LineRead(line.push(10))) == line_action(
            source,
            line.push(10),
        ),
        taken(source, FeedInputView::LineRead(line.push(10))) == line.len() + 1,
        !finished(Seq::<u8>::empty()),
        forall|b: u8| b != 10 ==> !finished(#[trigger] line.push(b)),
{
}

/// A line that says an event before its newline is handed out at once, and what
/// was read of it is taken.
pub proof fn law_line_with_event_is_taken(source: Seq<char>, position: int, bytes: Seq<u8>)
    requires
        line_action(source, bytes) is Emit,
    ensures
        next_action(source, position, FeedInputView::LineRead(bytes)) == line_action(source, bytes),
        taken(source, FeedInputView::LineRead(bytes)) == bytes.len(),
{
}

/// What is noticed of the feed: a file that was modified or created is read on from
/// where the tail stands, and nothing else moves it. Whatever fails says where and
/// why.
pub proof fn law_tail_reads_on_from_where_it_stands(
    source: Seq<char>,
    position: int,
    fault: Seq<char>,
)
    ensures
        next_action(source, position, FeedInputView::Noticed(FeedNotice::Modified))
            == FeedActionView::Seek(position),
        next_action(source, position, FeedInputView::Noticed(FeedNotice::Created))
            == FeedActionView::Seek(position),
        next_action(source, position, FeedInputView::Noticed(FeedNotice::Other)) is Wait,
        next_action(source, position, FeedInputView::Noticed(FeedNotice::Failed)) is Wait,
        next_action(source, position, FeedInputView::Sought) is ReadLine,
        next_action(source, position, FeedInputView::SeekFailed(fault)) == FeedActionView::Stop(
            TriggerFault::Terminated("seek to "@ + decimal(position as nat) + (": "@ + fault)),
        ),
        next_action(source, position, FeedInputView::ReadFailed(fault)) == FeedActionView::Stop(
            TriggerFault::Terminated("read line: "@ + fault),
        ),
        forall|notice: FeedNotice| #[trigger]
            taken(source, FeedInputView::Noticed(notice)) == 0,
        taken(source, FeedInputView::Sought) == 0,
        taken(source, FeedInputView::SeekFailed(fault)) == 0,
        taken(source, FeedInputView::ReadFailed(fault)) == 0,
{
}

/// The events of a feed can be delivered in parts: those of the first lines, then
/// those of the lines after them.
pub proof fn law_feed_is_delivered_in_parts(
    source: Seq<char>,
    before: Seq<Seq<u8>>,
    after: Seq<Seq<u8>>,
)
    ensures
        delivered(source, before + after) == delivered(source, before) + delivered(source, after),
    decreases after.len(),
{
    if after.len() == 0 {
        assert(before + after =~= before);
        assert(delivered(source, before) + delivered(source, after) =~= delivered(source, before));
    } else {
        law_feed_is_delivered_in_parts(source, before, after.drop_last());
        assert((before + after).drop_last() =~= before + after.drop_last());
        assert(delivered(source, before + after) =~= delivered(source, before) + delivered(
            source,
            after,
        ));
    }
}

/// What does not end in a newline, and says no event, is left where it stands: the
/// tail waits, and takes nothing.
pub proof fn law_nothing_is_taken_of_an_open_line(
    source: Seq<char>,
    position: int,
    bytes: Seq<u8>,
)
    requires
        bytes.len() > 0 ==> bytes.last() != 10,
        !(line_action(source, bytes) is Emit),
    ensures
        next_action(source, position, FeedInputView::LineRead(bytes)) is Wait,
        taken(source, FeedInputView::LineRead(bytes)) == 0,
{
}

/// What an input says is its kind and all that came with it.
pub proof fn law_inputs_say_what_came(notice: FeedNotice, fault: String, bytes: Vec<u8>)
    ensures
        FeedInput::Noticed(notice)@ == FeedInputView::Noticed(notice),
        FeedInput::Sought@ == FeedInputView::Sought,
        FeedInput::SeekFailed(fault)@ == FeedInputView::SeekFailed(fault@),
        FeedInput::LineRead(bytes)@ == FeedInputView::LineRead(bytes@),
        FeedInput::ReadFailed(fault)@ == FeedInputView::ReadFailed(fault@),
{
}

/// What an action says is its kind and all that goes with it.
pub proof fn law_actions_say_what_to_do(
    to: u64,
    event: TriggerEvent,
    fault: String,
    error: TriggerError,
)
    ensures
        FeedAction::Wait@ == FeedActionView::Wait,
        FeedAction::Seek(to)@ == FeedActionView::Seek(to as int),
        FeedAction::ReadLine@ == FeedActionView::ReadLine,
        FeedAction::Emit(event)@ == FeedActionView::Emit(event@),
        FeedAction::Skip(LineFault::NotUtf8(fault))@ == FeedActionView::Skip(
            LineFaultView::NotUtf8(fault@),
        ),
        FeedAction::Skip(LineFault::NotJson(fault))@ == FeedActionView::Skip(
            LineFaultView::NotJson(fault@),
        ),
        FeedAction::Skip(LineFault::NoLifecycle)@ == FeedActionView::Skip(
            LineFaultView::NoLifecycle,
        ),
        FeedAction::Stop(error)@ == FeedActionView::Stop(error@),
{
}

} // verus!
