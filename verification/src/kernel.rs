//! The events that a stateful kernel publishes, and the payloads they carry.

use vstd::prelude::*;
use crate::text::{chars_of, line_feed, matches_at, push_all, starts_with, texts};

verus! {

/// Whether the kernel is running code. Only a status event changes it.
#[derive(Clone, Copy, Debug, PartialEq, Eq, Structural)]
pub enum ExecutionState {
    /// The kernel waits for work.
    Idle,
    /// The kernel runs a request.
    Busy,
}

/// One payload of a rich result, as plain text: its MIME type and its body.
pub type MimeEntry = (Seq<char>, Seq<char>);

/// No MIME type occurs twice in `entries`.
pub open spec fn distinct_types(entries: Seq<MimeEntry>) -> bool {
    forall|i: int, j: int|
        0 <= i < j < entries.len() ==> (#[trigger] entries[i]).0 != (#[trigger] entries[j]).0
}

/// The position of the entry for `mime` in `entries`, if it has one.
pub open spec fn position_of(entries: Seq<MimeEntry>, mime: Seq<char>) -> Option<int> {
    if exists|i: int| 0 <= i < entries.len() && (#[trigger] entries[i]).0 == mime {
        Some(choose|i: int| 0 <= i < entries.len() && (#[trigger] entries[i]).0 == mime)
    } else {
        None
    }
}

/// The body that `entries` hold for `mime`, if they hold one.
pub open spec fn payload_of(entries: Seq<MimeEntry>, mime: Seq<char>) -> Option<Seq<char>> {
    match position_of(entries, mime) {
        Some(i) => Some(entries[i].1),
        None => None,
    }
}

/// `entries` with the body for `mime` set to `body`: in place where `mime`
/// has an entry, at the end where it has none.
pub open spec fn with_payload(entries: Seq<MimeEntry>, mime: Seq<char>, body: Seq<char>) -> Seq<
    MimeEntry,
> {
    match position_of(entries, mime) {
        Some(i) => entries.update(i, (mime, body)),
        None => entries.push((mime, body)),
    }
}

/// Among entries with distinct types, an entry for `mime` is at the position
/// that `position_of` gives.
pub proof fn lemma_position_unique(entries: Seq<MimeEntry>, mime: Seq<char>, at: int)
    requires
        distinct_types(entries),
        0 <= at < entries.len(),
        entries[at].0 == mime,
    ensures
        position_of(entries, mime) == Some(at),
        payload_of(entries, mime) == Some(entries[at].1),
{
    let chosen = choose|i: int| 0 <= i < entries.len() && (#[trigger] entries[i]).0 == mime;
    if chosen < at {
        assert(entries[chosen].0 != entries[at].0);
    } else if at < chosen {
        assert(entries[at].0 != entries[chosen].0);
    }
}

/// Whether a MIME type names an image.
pub open spec fn is_image_type(mime: Seq<char>) -> bool {
    starts_with(mime, "image/"@)
}

/// `at` is the position of the first entry of `entries` that holds an image.
pub open spec fn first_image_at(entries: Seq<MimeEntry>, at: int) -> bool {
    &&& 0 <= at < entries.len()
    &&& is_image_type(entries[at].0)
    &&& forall|before: int| 0 <= before < at ==> !is_image_type((#[trigger] entries[before]).0)
}

/// The position of the first entry of `entries` that holds an image.
pub open spec fn first_image(entries: Seq<MimeEntry>) -> Option<int> {
    if exists|at: int| first_image_at(entries, at) {
        Some(choose|at: int| first_image_at(entries, at))
    } else {
        None
    }
}

/// The entry whose image is shown for `entries`: the one of type
/// `image/png` if there is one, else the first that holds an image.
pub open spec fn chosen_image(entries: Seq<MimeEntry>) -> Option<int> {
    match position_of(entries, "image/png"@) {
        Some(at) => Some(at),
        None => first_image(entries),
    }
}

/// The first image is where the search found it.
pub proof fn lemma_first_image(entries: Seq<MimeEntry>, at: int)
    requires
        first_image_at(entries, at),
    ensures
        first_image(entries) == Some(at),
{
    let chosen = choose|k: int| first_image_at(entries, k);
    if chosen < at {
        assert(!is_image_type(entries[chosen].0));
    } else if at < chosen {
        assert(!is_image_type(entries[at].0));
    }
}

/// A rich result: a mapping from MIME type to body that keeps the order in
/// which the types were first set.
#[derive(Debug, PartialEq, Eq)]
pub struct MimeBundle {
    entries: Vec<(String, String)>,
}

impl View for MimeBundle {
    type V = Seq<MimeEntry>;

    closed spec fn view(&self) -> Seq<MimeEntry> {
        Seq::new(self.entries@.len(), |i: int| (self.entries@[i].0@, self.entries@[i].1@))
    }
}

impl MimeBundle {
    #[verifier::type_invariant]
    spec fn distinct(&self) -> bool {
        distinct_types(self@)
    }

    /// The bundle without entries.
    pub fn new() -> (bundle: MimeBundle)
        ensures
            bundle@ == Seq::<MimeEntry>::empty(),
    {
        let bundle = MimeBundle { entries: Vec::new() };
        assert(bundle@ =~= Seq::<MimeEntry>::empty());
        bundle
    }

    /// The number of MIME types in the bundle.
    pub fn len(&self) -> (n: usize)
        ensures
            n == self@.len(),
    {
        self.entries.len()
    }

    /// The MIME type of the entry at `index`.
    pub fn mime_at(&self, index: usize) -> (mime: &String)
        requires
            index < self@.len(),
        ensures
            mime@ == self@[index as int].0,
    {
        &self.entries[index].0
    }

    /// The body of the entry at `index`.
    pub fn body_at(&self, index: usize) -> (body: &String)
        requires
            index < self@.len(),
        ensures
            body@ == self@[index as int].1,
    {
        &self.entries[index].1
    }

    /// Where the entry for `mime` stands.
    pub fn position(&self, mime: &String) -> (at: Option<usize>)
        ensures
            at matches Some(i) ==> position_of(self@, mime@) == Some(i as int) && i < self@.len(),
            at is None ==> position_of(self@, mime@) is None,
    {
        proof {
            use_type_invariant(self);
        }
        let mut i: usize = 0;
        while i < self.entries.len()
            invariant
                i <= self.entries.len(),
                distinct_types(self@),
                forall|k: int| 0 <= k < i ==> (#[trigger] self@[k]).0 != mime@,
            decreases self.entries.len() - i,
        {
            if self.entries[i].0 == *mime {
                proof {
                    lemma_position_unique(self@, mime@, i as int);
                }
                return Some(i);
            }
            i += 1;
        }
        None
    }

    /// The body for `mime`.
    pub fn get(&self, mime: &String) -> (body: Option<&String>)
        ensures
            body matches Some(text) ==> payload_of(self@, mime@) == Some(text@),
            body is None ==> payload_of(self@, mime@) is None,
    {
        match self.position(mime) {
            Some(i) => Some(&self.entries[i].1),
            None => None,
        }
    }

    /// Where the entry stands whose image is shown.
    pub fn image_position(&self) -> (at: Option<usize>)
        ensures
            at matches Some(i) ==> chosen_image(self@) == Some(i as int) && i < self@.len(),
            at is None ==> chosen_image(self@) is None,
    {
        let png = "image/png".to_owned();
        match self.position(&png) {
            Some(i) => Some(i),
            None => {
                let prefix = chars_of("image/");
                let mut i: usize = 0;
                while i < self.entries.len()
                    invariant
                        i <= self.entries.len(),
                        prefix@ == "image/"@,
                        position_of(self@, "image/png"@) is None,
                        forall|k: int| 0 <= k < i ==> !is_image_type((#[trigger] self@[k]).0),
                    decreases self.entries.len() - i,
                {
                    let mime = chars_of(self.entries[i].0.as_str());
                    if matches_at(&mime, &prefix, 0) {
                        proof {
                            lemma_first_image(self@, i as int);
                        }
                        return Some(i);
                    }
                    i += 1;
                }
                None
            },
        }
    }

    /// Sets the body for `mime`.
    pub fn insert(&mut self, mime: String, body: String)
        ensures
            final(self)@ == with_payload(old(self)@, mime@, body@),
    {
        proof {
            use_type_invariant(&*self);
        }
        let at = self.position(&mime);
        let ghost before = self@;
        let mut entries: Vec<(String, String)> = Vec::new();
        std::mem::swap(&mut entries, &mut self.entries);
        let ghost moved = Seq::new(entries@.len(), |i: int| (entries@[i].0@, entries@[i].1@));
        assert(moved =~= before);
        match at {
            Some(i) => {
                entries.set(i, (mime, body));
            },
            None => {
                entries.push((mime, body));
            },
        }
        let ghost after = Seq::new(entries@.len(), |i: int| (entries@[i].0@, entries@[i].1@));
        assert(after =~= with_payload(before, mime@, body@));
        assert(distinct_types(after)) by {
            assert forall|i: int, j: int| 0 <= i < j < after.len() implies (#[trigger] after[i]).0
                != (#[trigger] after[j]).0 by {
                match at {
                    Some(k) => {
                        lemma_position_unique(before, mime@, k as int);
                        if i != k && j != k {
                            assert(before[i].0 != before[j].0);
                        } else if i == k {
                            assert(before[k as int].0 != before[j].0);
                        } else {
                            assert(before[i].0 != before[k as int].0);
                        }
                    },
                    None => {
                        if j < before.len() {
                            assert(before[i].0 != before[j].0);
                        } else {
                            assert(before[i].0 != mime@);
                        }
                    },
                }
            }
        }
        self.entries = entries;
        assert(self@ =~= after);
    }
}

/// One message that the kernel published. Every event names, in `parent`,
/// the request that caused it.
#[derive(Debug, PartialEq, Eq)]
pub enum KernelEvent {
    /// The kernel changed its execution state.
    Status { parent: String, state: ExecutionState },
    /// The kernel echoes the code that it is about to run.
    ExecuteInput { parent: String, code: String },
    /// The running code wrote text.
    Stream { parent: String, text: String },
    /// The value of the request.
    ExecuteResult { parent: String, data: MimeBundle },
    /// The running code failed.
    Error { parent: String, message: String, traceback: Vec<String> },
    /// The output shown so far is to be cleared.
    ClearOutput { parent: String },
    /// The running code displayed a rich result.
    DisplayData { parent: String, data: MimeBundle },
}

impl KernelEvent {
    /// The request that caused the event.
    pub open spec fn parent_id(self) -> Seq<char> {
        match self {
            KernelEvent::Status { parent, .. } => parent@,
            KernelEvent::ExecuteInput { parent, .. } => parent@,
            KernelEvent::Stream { parent, .. } => parent@,
            KernelEvent::ExecuteResult { parent, .. } => parent@,
            KernelEvent::Error { parent, .. } => parent@,
            KernelEvent::ClearOutput { parent } => parent@,
            KernelEvent::DisplayData { parent, .. } => parent@,
        }
    }

    /// The request that caused the event.
    pub fn parent(&self) -> (parent: &String)
        ensures
            parent@ == self.parent_id(),
    {
        match self {
            KernelEvent::Status { parent, .. } => parent,
            KernelEvent::ExecuteInput { parent, .. } => parent,
            KernelEvent::Stream { parent, .. } => parent,
            KernelEvent::ExecuteResult { parent, .. } => parent,
            KernelEvent::Error { parent, .. } => parent,
            KernelEvent::ClearOutput { parent } => parent,
            KernelEvent::DisplayData { parent, .. } => parent,
        }
    }
}

/// What arrives on the event path: an event of the closed set, or a message
/// of any other shape.
#[derive(Debug, PartialEq, Eq)]
pub enum Incoming {
    Event(KernelEvent),
    Unexpected,
}

/// The lines of a traceback, each ended by a line feed.
pub open spec fn trace_text(traceback: Seq<Seq<char>>) -> Seq<char>
    decreases traceback.len(),
{
    if traceback.len() == 0 {
        Seq::empty()
    } else {
        trace_text(traceback.drop_last()) + traceback.last() + line_feed()
    }
}

/// The text of an error: its message on a line of its own, then the lines of
/// its traceback.
pub open spec fn report_text(message: Seq<char>, traceback: Seq<Seq<char>>) -> Seq<char> {
    message + line_feed() + trace_text(traceback)
}

/// The text that stands for a rich result: nothing where it holds an image,
/// which is painted, else its `text/plain` body where it has one.
pub open spec fn rich_text(entries: Seq<MimeEntry>) -> Seq<char> {
    if chosen_image(entries) is Some {
        Seq::empty()
    } else {
        match payload_of(entries, "text/plain"@) {
            Some(body) => body,
            None => Seq::empty(),
        }
    }
}

/// The text by which an event shows in the result text.
pub open spec fn visible_text(event: KernelEvent) -> Seq<char> {
    match event {
        KernelEvent::Stream { text, .. } => text@,
        KernelEvent::ExecuteResult { data, .. } => rich_text(data@),
        KernelEvent::DisplayData { data, .. } => rich_text(data@),
        KernelEvent::Error { message, traceback, .. } => report_text(
            message@,
            texts(traceback@),
        ),
        _ => Seq::empty(),
    }
}

/// The result text of a sequence of events: the texts by which they show,
/// in arrival order.
pub open spec fn transcript(events: Seq<KernelEvent>) -> Seq<char>
    decreases events.len(),
{
    if events.len() == 0 {
        Seq::empty()
    } else {
        transcript(events.drop_last()) + visible_text(events.last())
    }
}

/// No event of `events` is an error.
pub open spec fn free_of_errors(events: Seq<KernelEvent>) -> bool {
    forall|i: int| 0 <= i < events.len() ==> !((#[trigger] events[i]) is Error)
}

/// Appends to `out` the text by which `event` shows.
pub fn append_visible_text(out: &mut Vec<char>, event: &KernelEvent)
    ensures
        final(out)@ == old(out)@ + visible_text(*event),
{
    match event {
        KernelEvent::Stream { text, .. } => {
            push_all(out, &chars_of(text.as_str()));
        },
        KernelEvent::ExecuteResult { data, .. } => {
            append_rich_text(out, data);
        },
        KernelEvent::DisplayData { data, .. } => {
            append_rich_text(out, data);
        },
        KernelEvent::Error { message, traceback, .. } => {
            let ghost start = out@;
            push_all(out, &chars_of(message.as_str()));
            out.push('\n');
            assert(out@ =~= start + (message@ + line_feed()));
            let ghost head = out@;
            let mut i: usize = 0;
            assert(texts(traceback@).take(0) =~= Seq::<Seq<char>>::empty());
            while i < traceback.len()
                invariant
                    i <= traceback.len(),
                    out@ == head + trace_text(texts(traceback@).take(i as int)),
                decreases traceback.len() - i,
            {
                let ghost upto = texts(traceback@).take(i + 1);
                let ghost seen = out@;
                proof {
                    assert(upto.drop_last() =~= texts(traceback@).take(i as int));
                    assert(upto.last() == traceback@[i as int]@);
                }
                push_all(out, &chars_of(traceback[i].as_str()));
                out.push('\n');
                assert(out@ =~= seen + (traceback@[i as int]@ + line_feed()));
                i += 1;
            }
            assert(texts(traceback@).take(traceback@.len() as int) =~= texts(traceback@));
            assert(out@ =~= start + report_text(message@, texts(traceback@)));
        },
        _ => {
            assert(out@ =~= old(out)@ + Seq::<char>::empty());
        },
    }
}

/// Appends to `out` the text that stands for a rich result.
pub fn append_rich_text(out: &mut Vec<char>, data: &MimeBundle)
    ensures
        final(out)@ == old(out)@ + rich_text(data@),
{
    let plain = "text/plain".to_owned();
    let body = if data.image_position().is_none() {
        data.get(&plain)
    } else {
        None
    };
    match body {
        Some(text) => {
            push_all(out, &chars_of(text.as_str()));
        },
        None => {
            assert(out@ =~= old(out)@ + Seq::<char>::empty());
        },
    }
}

} // verus!
