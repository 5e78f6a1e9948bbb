//! The transaction log's entry types and the streaming fold.
//!
//! A conversation is an append-only sequence of transactions: outbound
//! requests, complete replies, and streamed replies assembled fragment by
//! fragment. A streamed transaction is `Open` while it still accepts
//! fragments and `Closed` once a fragment carried a terminal finish
//! reason (or the channel ended). A fragment always folds into the most
//! recently appended open streamed transaction; when none is open — in
//! particular when a fragment arrives after a terminal finish, a protocol
//! violation — a new transaction is opened defensively instead of
//! mutating a closed one.

use vstd::prelude::*;
use crate::request::ChatRequest;
use crate::request::ChatRequestView;
use crate::types::Role;

verus! {

/// Whether a streamed transaction still accepts fragments.
#[derive(Clone, Copy, Debug, PartialEq, Eq, Structural)]
pub enum StreamState {
    Open,
    Closed,
}

/// One choice of a streamed reply, as accumulated so far: the role from
/// the first fragment that carried one, the concatenation of all content
/// deltas, and the finish reason once one arrived.
pub struct StreamChoice {
    pub role: Option<Role>,
    pub content: String,
    pub finish_reason: Option<String>,
}

/// The mathematical view of a `StreamChoice`.
pub ghost struct StreamChoiceView {
    pub role: Option<Role>,
    pub content: Seq<char>,
    pub finish_reason: Option<Seq<char>>,
}

impl View for StreamChoice {
    type V = StreamChoiceView;

    open spec fn view(&self) -> StreamChoiceView {
        StreamChoiceView {
            role: self.role,
            content: self.content@,
            finish_reason: match self.finish_reason {
                Option::Some(f) => Option::Some(f@),
                Option::None => Option::None,
            },
        }
    }
}

impl Clone for StreamChoice {
    fn clone(&self) -> (r: StreamChoice)
        ensures
            r@ == self@,
    {
        StreamChoice {
            role: self.role,
            content: self.content.clone(),
            finish_reason: match &self.finish_reason {
                Option::Some(f) => Option::Some(f.clone()),
                Option::None => Option::None,
            },
        }
    }
}

/// One incremental delta from the wire, aimed at one choice index: an
/// optional role, an optional content fragment, and an optional finish
/// reason.
pub struct ChoiceDelta {
    pub index: usize,
    pub role: Option<Role>,
    pub content: Option<String>,
    pub finish_reason: Option<String>,
}

/// The mathematical view of a `ChoiceDelta`.
pub ghost struct ChoiceDeltaView {
    pub index: usize,
    pub role: Option<Role>,
    pub content: Option<Seq<char>>,
    pub finish_reason: Option<Seq<char>>,
}

impl View for ChoiceDelta {
    type V = ChoiceDeltaView;

    open spec fn view(&self) -> ChoiceDeltaView {
        ChoiceDeltaView {
            index: self.index,
            role: self.role,
            content: match self.content {
                Option::Some(c) => Option::Some(c@),
                Option::None => Option::None,
            },
            finish_reason: match self.finish_reason {
                Option::Some(f) => Option::Some(f@),
                Option::None => Option::None,
            },
        }
    }
}

/// One fragment of a streamed reply as it arrives: partial deltas for one
/// or more choices.
pub struct StreamFragment {
    pub choices: Vec<ChoiceDelta>,
}

impl View for StreamFragment {
    type V = Seq<ChoiceDeltaView>;

    open spec fn view(&self) -> Seq<ChoiceDeltaView> {
        self.choices@.map_values(|d: ChoiceDelta| d@)
    }
}

/// A streamed reply as accumulated in the log, with its fold state.
pub struct StreamedResponse {
    pub choices: Vec<StreamChoice>,
    pub state: StreamState,
}

/// The mathematical view of a `StreamedResponse`.
pub ghost struct StreamedResponseView {
    pub choices: Seq<StreamChoiceView>,
    pub state: StreamState,
}

impl View for StreamedResponse {
    type V = StreamedResponseView;

    open spec fn view(&self) -> StreamedResponseView {
        StreamedResponseView {
            choices: self.choices@.map_values(|c: StreamChoice| c@),
            state: self.state,
        }
    }
}

/// One complete choice of a non-streamed reply.
pub struct ChatChoice {
    pub role: Role,
    pub content: String,
}

/// The mathematical view of a `ChatChoice`.
pub ghost struct ChatChoiceView {
    pub role: Role,
    pub content: Seq<char>,
}

impl View for ChatChoice {
    type V = ChatChoiceView;

    open spec fn view(&self) -> ChatChoiceView {
        ChatChoiceView { role: self.role, content: self.content@ }
    }
}

/// A complete, non-streamed reply: one or more choices, each with role
/// and content.
pub struct ChatResponse {
    pub choices: Vec<ChatChoice>,
}

/// The mathematical view of a `ChatResponse`.
pub ghost struct ChatResponseView {
    pub choices: Seq<ChatChoiceView>,
}

impl View for ChatResponse {
    type V = ChatResponseView;

    open spec fn view(&self) -> ChatResponseView {
        ChatResponseView { choices: self.choices@.map_values(|c: ChatChoice| c@) }
    }
}

/// One logged unit of conversation.
pub enum ChatTransaction {
    Request(ChatRequest),
    Response(ChatResponse),
    StreamResponse(StreamedResponse),
}

/// The mathematical view of a `ChatTransaction`.
pub ghost enum ChatTransactionView {
    Request(ChatRequestView),
    Response(ChatResponseView),
    StreamResponse(StreamedResponseView),
}

impl View for ChatTransaction {
    type V = ChatTransactionView;

    open spec fn view(&self) -> ChatTransactionView {
        match self {
            ChatTransaction::Request(r) => ChatTransactionView::Request(r@),
            ChatTransaction::Response(r) => ChatTransactionView::Response(r@),
            ChatTransaction::StreamResponse(s) => ChatTransactionView::StreamResponse(s@),
        }
    }
}

/// A choice no fragment has touched yet.
pub open spec fn spec_empty_choice() -> StreamChoiceView {
    StreamChoiceView {
        role: Option::None,
        content: Seq::empty(),
        finish_reason: Option::None,
    }
}

/// One delta folded into one accumulated choice: the role is set by the
/// first fragment that carries one, content deltas are concatenated, and
/// the first finish reason sticks.
pub open spec fn spec_merge_choice(prev: StreamChoiceView, d: ChoiceDeltaView) -> StreamChoiceView {
    StreamChoiceView {
        role: if prev.role is Some {
            prev.role
        } else {
            d.role
        },
        content: prev.content + match d.content {
            Option::Some(c) => c,
            Option::None => Seq::empty(),
        },
        finish_reason: if prev.finish_reason is Some {
            prev.finish_reason
        } else {
            d.finish_reason
        },
    }
}

/// The choice list grown so that index `n - 1` exists, new slots empty.
pub open spec fn spec_pad_choices(choices: Seq<StreamChoiceView>, n: nat) -> Seq<StreamChoiceView> {
    if choices.len() >= n {
        choices
    } else {
        Seq::new(
            n,
            |i: int|
                if i < choices.len() {
                    choices[i]
                } else {
                    spec_empty_choice()
                },
        )
    }
}

/// One delta applied to the accumulated choice list, growing the list if
/// the delta's index is new.
pub open spec fn spec_apply_delta(choices: Seq<StreamChoiceView>, d: ChoiceDeltaView) -> Seq<
    StreamChoiceView,
> {
    let padded = spec_pad_choices(choices, d.index as nat + 1);
    padded.update(d.index as int, spec_merge_choice(padded[d.index as int], d))
}

/// A whole fragment applied delta by delta, in arrival order.
pub open spec fn spec_apply_fragment(
    choices: Seq<StreamChoiceView>,
    deltas: Seq<ChoiceDeltaView>,
) -> Seq<StreamChoiceView>
    decreases deltas.len(),
{
    if deltas.len() == 0 {
        choices
    } else {
        spec_apply_fragment(spec_apply_delta(choices, deltas[0]), deltas.drop_first())
    }
}

/// Whether a fragment carries a terminal finish signal.
pub open spec fn spec_fragment_closes(deltas: Seq<ChoiceDeltaView>) -> bool {
    exists|i: int| 0 <= i < deltas.len() && (#[trigger] deltas[i]).finish_reason is Some
}

/// The streamed transaction one lone fragment opens: the fragment's
/// deltas applied to an empty choice list, `Closed` iff the fragment
/// carried a finish reason.
pub open spec fn spec_stream_from_fragment(deltas: Seq<ChoiceDeltaView>) -> StreamedResponseView {
    StreamedResponseView {
        choices: spec_apply_fragment(Seq::empty(), deltas),
        state: if spec_fragment_closes(deltas) {
            StreamState::Closed
        } else {
            StreamState::Open
        },
    }
}

/// Whether the most recent transaction is an open streamed reply — the
/// only fold target a fragment may have.
pub open spec fn spec_last_open(log: Seq<ChatTransactionView>) -> bool {
    &&& log.len() > 0
    &&& log.last() matches ChatTransactionView::StreamResponse(prev)
    &&& log.last()->StreamResponse_0.state == StreamState::Open
}

/// Two accumulated streamed replies merged position by position; the
/// incoming reply decides the merged state.
pub open spec fn spec_merge_stream(
    prev: StreamedResponseView,
    inc: StreamedResponseView,
) -> StreamedResponseView {
    let n = if prev.choices.len() >= inc.choices.len() {
        prev.choices.len()
    } else {
        inc.choices.len()
    };
    StreamedResponseView {
        choices: Seq::new(
            n,
            |i: int|
                if i < prev.choices.len() && i < inc.choices.len() {
                    StreamChoiceView {
                        role: if prev.choices[i].role is Some {
                            prev.choices[i].role
                        } else {
                            inc.choices[i].role
                        },
                        content: prev.choices[i].content + inc.choices[i].content,
                        finish_reason: if prev.choices[i].finish_reason is Some {
                            prev.choices[i].finish_reason
                        } else {
                            inc.choices[i].finish_reason
                        },
                    }
                } else if i < prev.choices.len() {
                    prev.choices[i]
                } else {
                    inc.choices[i]
                },
        ),
        state: inc.state,
    }
}

/// The fold transition of the transaction store, as a pure function on
/// the log: an incoming streamed reply extends the most recent open
/// streamed transaction in place, and opens a new transaction otherwise.
pub open spec fn spec_fold_stream(
    log: Seq<ChatTransactionView>,
    inc: StreamedResponseView,
) -> Seq<ChatTransactionView> {
    if spec_last_open(log) {
        let prev = log.last()->StreamResponse_0;
        log.update(
            log.len() - 1,
            ChatTransactionView::StreamResponse(spec_merge_stream(prev, inc)),
        )
    } else {
        log.push(ChatTransactionView::StreamResponse(inc))
    }
}

/// The log once the stream channel has ended: the open streamed
/// transaction, if any, is closed in place; nothing else changes.
pub open spec fn spec_close_stream(log: Seq<ChatTransactionView>) -> Seq<ChatTransactionView> {
    if spec_last_open(log) {
        let prev = log.last()->StreamResponse_0;
        log.update(
            log.len() - 1,
            ChatTransactionView::StreamResponse(
                StreamedResponseView { choices: prev.choices, state: StreamState::Closed },
            ),
        )
    } else {
        log
    }
}

/// Folding never removes transactions and never touches any transaction
/// before the most recent one.
pub proof fn lemma_fold_preserves_prefix(log: Seq<ChatTransactionView>, inc: StreamedResponseView)
    ensures
        spec_fold_stream(log, inc).len() >= log.len(),
        forall|i: int| 0 <= i < log.len() - 1 ==> spec_fold_stream(log, inc)[i] == log[i],
{
}

/// When the most recent transaction is not an open streamed reply — it
/// is a request, a complete reply, a closed stream, or the log is empty —
/// a fragment opens a new transaction and leaves every existing
/// transaction unchanged.
pub proof fn lemma_fold_appends_when_none_open(
    log: Seq<ChatTransactionView>,
    inc: StreamedResponseView,
)
    requires
        !spec_last_open(log),
    ensures
        spec_fold_stream(log, inc) == log.push(ChatTransactionView::StreamResponse(inc)),
{
}

/// A sequence of streamed replies folded into the log one after another.
pub open spec fn spec_fold_all(
    log: Seq<ChatTransactionView>,
    incs: Seq<StreamedResponseView>,
) -> Seq<ChatTransactionView>
    decreases incs.len(),
{
    if incs.len() == 0 {
        log
    } else {
        spec_fold_all(spec_fold_stream(log, incs[0]), incs.drop_first())
    }
}

proof fn lemma_fold_all_preserves(
    log: Seq<ChatTransactionView>,
    incs: Seq<StreamedResponseView>,
    n: int,
)
    requires
        0 <= n <= log.len(),
        log.len() == n ==> !spec_last_open(log),
    ensures
        spec_fold_all(log, incs).len() >= log.len(),
        forall|i: int| 0 <= i < n ==> spec_fold_all(log, incs)[i] == log[i],
    decreases incs.len(),
{
    if incs.len() == 0 {
    } else {
        let log2 = spec_fold_stream(log, incs[0]);
        lemma_fold_preserves_prefix(log, incs[0]);
        if log.len() == n {
            lemma_fold_appends_when_none_open(log, incs[0]);
        }
        lemma_fold_all_preserves(log2, incs.drop_first(), n);
        assert forall|i: int| 0 <= i < n implies spec_fold_all(log, incs)[i] == log[i] by {
            assert(spec_fold_all(log2, incs.drop_first())[i] == log2[i]);
            assert(log2[i] == log[i]);
        }
    }
}

/// Ordering across sequential dispatches: once a request transaction has
/// been appended, no later fragment — however many arrive, and whatever
/// they carry — changes the request or anything appended before it. In
/// particular, fragments of a second dispatch never fold into a closed
/// streamed transaction of the first.
pub proof fn lemma_sequential_dispatch_ordering(
    log: Seq<ChatTransactionView>,
    req: ChatRequestView,
    incs: Seq<StreamedResponseView>,
)
    ensures
        ({
            let start = log.push(ChatTransactionView::Request(req));
            let end = spec_fold_all(start, incs);
            &&& end.len() >= start.len()
            &&& forall|i: int| 0 <= i < start.len() ==> end[i] == start[i]
        }),
{
    let start = log.push(ChatTransactionView::Request(req));
    assert(!spec_last_open(start));
    lemma_fold_all_preserves(start, incs, start.len() as int);
}

fn empty_choice() -> (c: StreamChoice)
    ensures
        c@ == spec_empty_choice(),
{
    StreamChoice { role: Option::None, content: String::new(), finish_reason: Option::None }
}

/// The views of a choice vector.
pub open spec fn choice_views(cs: Seq<StreamChoice>) -> Seq<StreamChoiceView> {
    cs.map_values(|c: StreamChoice| c@)
}

/// Apply one delta to the accumulated choice vector.
fn apply_delta(choices: &mut Vec<StreamChoice>, d: &ChoiceDelta)
    ensures
        choice_views(final(choices)@) == spec_apply_delta(choice_views(old(choices)@), d@),
{
    let ghost orig = choice_views(choices@);
    proof {
        assert(spec_pad_choices(orig, choices@.len() as nat) == orig);
    }
    while choices.len() <= d.index
        invariant
            choice_views(choices@) == spec_pad_choices(orig, choices@.len() as nat),
            orig.len() <= choices@.len(),
            choices@.len() <= d.index + 1 || choices@.len() == orig.len(),
        decreases d.index + 1 - choices@.len(),
    {
        let ghost before = choice_views(choices@);
        choices.push(empty_choice());
        proof {
            assert(choice_views(choices@) =~= before.push(spec_empty_choice()));
            assert(choice_views(choices@) =~= spec_pad_choices(orig, choices@.len() as nat));
        }
    }
    proof {
        assert(choice_views(choices@) =~= spec_pad_choices(orig, d.index as nat + 1));
    }
    let ghost padded = choice_views(choices@);
    let prev = choices.remove(d.index);
    let mut content = prev.content;
    match &d.content {
        Option::Some(c) => content.append(c.as_str()),
        Option::None => {},
    }
    let merged = StreamChoice {
        role: match prev.role {
            Option::Some(r) => Option::Some(r),
            Option::None => d.role,
        },
        content,
        finish_reason: match prev.finish_reason {
            Option::Some(f) => Option::Some(f),
            Option::None => match &d.finish_reason {
                Option::Some(f) => Option::Some(f.clone()),
                Option::None => Option::None,
            },
        },
    };
    choices.insert(d.index, merged);
    proof {
        assert(choice_views(choices@) =~= padded.update(
            d.index as int,
            spec_merge_choice(padded[d.index as int], d@),
        ));
    }
}

impl StreamedResponse {
    /// The streamed transaction one lone fragment opens.
    pub fn from_fragment(fragment: &StreamFragment) -> (r: StreamedResponse)
        ensures
            r@ == spec_stream_from_fragment(fragment@),
    {
        let mut choices: Vec<StreamChoice> = Vec::new();
        let mut closes = false;
        let n = fragment.choices.len();
        let mut i: usize = 0;
        proof {
            assert(choice_views(choices@) =~= Seq::<StreamChoiceView>::empty());
            assert(fragment@.subrange(0, 0) =~= Seq::<ChoiceDeltaView>::empty());
            assert(fragment@.skip(0) =~= fragment@);
        }
        while i < n
            invariant
                i <= n,
                n == fragment.choices@.len(),
                spec_apply_fragment(Seq::empty(), fragment@) == spec_apply_fragment(
                    choice_views(choices@),
                    fragment@.skip(i as int),
                ),
                closes == spec_fragment_closes(fragment@.subrange(0, i as int)),
            decreases n - i,
        {
            let ghost tail = fragment@.skip(i as int);
            assert(tail[0] == fragment@[i as int]);
            assert(tail.drop_first() =~= fragment@.skip(i as int + 1));
            let d = &fragment.choices[i];
            assert(d@ == fragment@[i as int]);
            apply_delta(&mut choices, d);
            if d.finish_reason.is_some() {
                closes = true;
            }
            proof {
                let upto = fragment@.subrange(0, i as int + 1);
                assert(upto.drop_last() =~= fragment@.subrange(0, i as int));
                assert(upto.last() == fragment@[i as int]);
                if spec_fragment_closes(fragment@.subrange(0, i as int)) {
                    let w = choose|k: int|
                        0 <= k < i && (#[trigger] fragment@.subrange(0, i as int)[k]).finish_reason
                            is Some;
                    assert(upto[w].finish_reason is Some);
                } else if fragment@[i as int].finish_reason is Some {
                    assert(upto[i as int].finish_reason is Some);
                } else {
                    assert forall|k: int|
                        0 <= k < upto.len() implies !((#[trigger] upto[k]).finish_reason
                        is Some) by {
                        if k < i {
                            assert(fragment@.subrange(0, i as int)[k] == upto[k]);
                        }
                    }
                }
            }
            i = i + 1;
        }
        proof {
            assert(fragment@.skip(n as int) =~= Seq::<ChoiceDeltaView>::empty());
            assert(fragment@.subrange(0, n as int) =~= fragment@);
        }
        StreamedResponse {
            choices,
            state: if closes {
                StreamState::Closed
            } else {
                StreamState::Open
            },
        }
    }
}

/// Merge an incoming streamed reply into the accumulated one, position by
/// position.
pub fn merge_stream(prev: StreamedResponse, inc: StreamedResponse) -> (r: StreamedResponse)
    ensures
        r@ == spec_merge_stream(prev@, inc@),
{
    let n = if prev.choices.len() >= inc.choices.len() {
        prev.choices.len()
    } else {
        inc.choices.len()
    };
    let mut choices: Vec<StreamChoice> = Vec::new();
    let ghost target = spec_merge_stream(prev@, inc@).choices;
    let mut i: usize = 0;
    while i < n
        invariant
            i <= n,
            n == target.len(),
            n == if prev.choices@.len() >= inc.choices@.len() {
                prev.choices@.len()
            } else {
                inc.choices@.len()
            },
            target == spec_merge_stream(prev@, inc@).choices,
            choice_views(choices@) =~= target.subrange(0, i as int),
        decreases n - i,
    {
        let c = if i < prev.choices.len() && i < inc.choices.len() {
            let p = &prev.choices[i];
            let q = &inc.choices[i];
            let mut content = p.content.clone();
            content.append(q.content.as_str());
            StreamChoice {
                role: match p.role {
                    Option::Some(r) => Option::Some(r),
                    Option::None => q.role,
                },
                content,
                finish_reason: match &p.finish_reason {
                    Option::Some(f) => Option::Some(f.clone()),
                    Option::None => match &q.finish_reason {
                        Option::Some(f) => Option::Some(f.clone()),
                        Option::None => Option::None,
                    },
                },
            }
        } else if i < prev.choices.len() {
            prev.choices[i].clone()
        } else {
            inc.choices[i].clone()
        };
        let ghost prevcs = choice_views(choices@);
        choices.push(c);
        proof {
            assert(choice_views(choices@) =~= prevcs.push(c@));
            assert(c@ == target[i as int]);
            assert(choice_views(choices@) =~= target.subrange(0, i as int + 1));
        }
        i = i + 1;
    }
    proof {
        assert(choice_views(choices@) =~= target);
    }
    StreamedResponse { choices, state: inc.state }
}

} // verus!
