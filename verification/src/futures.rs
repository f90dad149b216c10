//! The decisions inside hand-written futures, as state machines: a leaf
//! future that is pending once and then ready, and the state machine that
//! the compiler would generate for
//!
//! ```text
//! async fn fetch(id: u32) -> String {
//!     let conn = format!("conn-{id}");
//!     YieldOnce::new().await;
//!     let head = format!("{conn}/head");
//!     YieldOnce::new().await;
//!     format!("{head}+body")
//! }
//! ```
//!
//! Polling, waking and printing are left to the caller; each step says what
//! happened.
use vstd::prelude::*;

verus! {

/// What one poll of a leaf future decided.
#[derive(Debug, Clone, Copy, PartialEq, Eq)]
pub enum Readiness {
    Ready,
    /// Not ready yet; the task's waker must be woken.
    PendingWake,
}

/// A leaf future: the first poll is pending (and wakes the task), every
/// later poll is ready.
pub struct YieldOnce {
    polled: bool,
}

impl YieldOnce {
    pub closed spec fn was_polled(&self) -> bool {
        self.polled
    }

    pub fn new() -> (y: Self)
        ensures
            !y.was_polled(),
    {
        YieldOnce { polled: false }
    }

    pub fn poll_step(&mut self) -> (r: Readiness)
        ensures
            old(self).was_polled() ==> r == Readiness::Ready,
            !old(self).was_polled() ==> r == Readiness::PendingWake,
            final(self).was_polled(),
    {
        if self.polled {
            Readiness::Ready
        } else {
            self.polled = true;
            Readiness::PendingWake
        }
    }
}

/// Decimal digit `d` as a character.
pub open spec fn digit_char(d: nat) -> char {
    (48 + d) as char
}

/// The decimal rendering of `n`, without leading zeros.
pub open spec fn decimal(n: nat) -> Seq<char>
    decreases n,
{
    if n < 10 {
        seq![digit_char(n)]
    } else {
        decimal(n / 10).push(digit_char(n % 10))
    }
}

/// `std`'s `Display` of a `u32`: its decimal digits.
#[verifier::external_body]
fn decimal_text(n: u32) -> (s: String)
    ensures
        s@ == decimal(n as nat),
{
    n.to_string()
}

/// The states of the hand-written fetch future.
pub enum FetchState {
    Unresumed { id: u32 },
    Suspend0 { conn: String, awaitee: YieldOnce },
    Suspend1 { head: String, awaitee: YieldOnce },
    Returned,
    Panicked,
}

/// The state machine of the fetch future.
pub struct FetchManual {
    state: FetchState,
}

/// The abstract state of [`FetchManual`].
pub enum FetchView {
    Unresumed(u32),
    Suspend0(Seq<char>, bool),
    Suspend1(Seq<char>, bool),
    Returned,
    Panicked,
}

/// What one step of [`FetchManual`] did.
pub enum FetchStep {
    /// Left `Unresumed`: the connection name is ready.
    Started(String),
    /// The first await finished: the head is ready.
    HeadReady(String),
    /// The awaited future is pending at this suspension point (0 or 1);
    /// the task's waker must be woken and the poll returns pending.
    Pending(u8),
    /// The second await finished: the result.
    Ready(String),
}

pub enum StepView {
    Started(Seq<char>),
    HeadReady(Seq<char>),
    Pending(u8),
    Ready(Seq<char>),
}

impl FetchStep {
    pub open spec fn view(&self) -> StepView {
        match self {
            FetchStep::Started(s) => StepView::Started(s@),
            FetchStep::HeadReady(s) => StepView::HeadReady(s@),
            FetchStep::Pending(k) => StepView::Pending(*k),
            FetchStep::Ready(s) => StepView::Ready(s@),
        }
    }
}

pub open spec fn conn_text(id: u32) -> Seq<char> {
    "conn-"@ + decimal(id as nat)
}

/// One step of the state machine: from a state, the next state and what
/// happened. Finished states do not step.
pub open spec fn fetch_next(v: FetchView) -> (FetchView, StepView) {
    match v {
        FetchView::Unresumed(id) => (FetchView::Suspend0(conn_text(id), false), StepView::Started(conn_text(id))),
        FetchView::Suspend0(conn, polled) => if polled {
            (FetchView::Suspend1(conn + "/head"@, false), StepView::HeadReady(conn + "/head"@))
        } else {
            (FetchView::Suspend0(conn, true), StepView::Pending(0))
        },
        FetchView::Suspend1(head, polled) => if polled {
            (FetchView::Returned, StepView::Ready(head + "+body"@))
        } else {
            (FetchView::Suspend1(head, true), StepView::Pending(1))
        },
        FetchView::Returned => (FetchView::Returned, StepView::Pending(0)),
        FetchView::Panicked => (FetchView::Panicked, StepView::Pending(0)),
    }
}

pub open spec fn is_finished(v: FetchView) -> bool {
    v is Returned || v is Panicked
}

/// Steps from `v` until the result, with at most `fuel` steps: how many
/// steps were pending, and the result.
pub open spec fn run_fetch(v: FetchView, fuel: nat) -> Option<(nat, Seq<char>)>
    decreases fuel,
{
    if fuel == 0 || is_finished(v) {
        None
    } else {
        let (next, step) = fetch_next(v);
        match step {
            StepView::Ready(out) => Some((0, out)),
            StepView::Pending(_) => match run_fetch(next, (fuel - 1) as nat) {
                Some((n, out)) => Some((n + 1, out)),
                None => None,
            },
            _ => run_fetch(next, (fuel - 1) as nat),
        }
    }
}

/// A fresh fetch state machine for `id`.
pub fn fetch_manual(id: u32) -> (f: FetchManual)
    ensures
        f@ == FetchView::Unresumed(id),
{
    FetchManual { state: FetchState::Unresumed { id } }
}

impl View for FetchManual {
    type V = FetchView;

    closed spec fn view(&self) -> FetchView {
        match self.state {
            FetchState::Unresumed { id } => FetchView::Unresumed(id),
            FetchState::Suspend0 { conn, awaitee } => FetchView::Suspend0(conn@, awaitee.was_polled()),
            FetchState::Suspend1 { head, awaitee } => FetchView::Suspend1(head@, awaitee.was_polled()),
            FetchState::Returned => FetchView::Returned,
            FetchState::Panicked => FetchView::Panicked,
        }
    }
}

impl FetchManual {
    /// The machine has produced its result (or failed) and may not step.
    pub fn is_finished(&self) -> (b: bool)
        ensures
            b == is_finished(self@),
    {
        match self.state {
            FetchState::Returned | FetchState::Panicked => true,
            _ => false,
        }
    }

    /// Runs the machine to its next decision.
    pub fn step(&mut self) -> (s: FetchStep)
        requires
            !is_finished(old(self)@),
        ensures
            (final(self)@, s.view()) == fetch_next(old(self)@),
    {
        let mut state = FetchState::Panicked;
        std::mem::swap(&mut state, &mut self.state);
        match state {
            FetchState::Unresumed { id } => {
                let mut conn = "conn-".to_owned();
                let digits = decimal_text(id);
                conn.append(digits.as_str());
                let note = conn.clone();
                self.state = FetchState::Suspend0 { conn, awaitee: YieldOnce::new() };
                FetchStep::Started(note)
            },
            FetchState::Suspend0 { conn, mut awaitee } => {
                match awaitee.poll_step() {
                    Readiness::PendingWake => {
                        self.state = FetchState::Suspend0 { conn, awaitee };
                        FetchStep::Pending(0)
                    },
                    Readiness::Ready => {
                        let mut head = conn;
                        head.append("/head");
                        let note = head.clone();
                        self.state = FetchState::Suspend1 { head, awaitee: YieldOnce::new() };
                        FetchStep::HeadReady(note)
                    },
                }
            },
            FetchState::Suspend1 { head, mut awaitee } => {
                match awaitee.poll_step() {
                    Readiness::PendingWake => {
                        self.state = FetchState::Suspend1 { head, awaitee };
                        FetchStep::Pending(1)
                    },
                    Readiness::Ready => {
                        let mut out = head;
                        out.append("+body");
                        self.state = FetchState::Returned;
                        FetchStep::Ready(out)
                    },
                }
            },
            FetchState::Returned => {
                self.state = FetchState::Returned;
                FetchStep::Pending(0)
            },
            FetchState::Panicked => {
                FetchStep::Pending(0)
            },
        }
    }
}

/// Steps until the first pending or ready step, with at most `fuel` steps:
/// the state reached and the steps taken.
pub open spec fn poll_from(v: FetchView, fuel: nat) -> (FetchView, Seq<StepView>)
    decreases fuel,
{
    if fuel == 0 {
        (v, seq![])
    } else {
        let (next, step) = fetch_next(v);
        match step {
            StepView::Pending(_) => (next, seq![step]),
            StepView::Ready(_) => (next, seq![step]),
            _ => {
                let (last, steps) = poll_from(next, (fuel - 1) as nat);
                (last, seq![step] + steps)
            },
        }
    }
}

/// One poll of the fetch future: it never takes more than two steps.
pub open spec fn fetch_poll(v: FetchView) -> (FetchView, Seq<StepView>) {
    poll_from(v, 2)
}

pub open spec fn step_views(steps: Seq<FetchStep>) -> Seq<StepView> {
    steps.map_values(|s: FetchStep| s.view())
}

pub open spec fn ends_poll(s: StepView) -> bool {
    s is Pending || s is Ready
}

impl FetchManual {
    /// One poll: the steps up to the first one that is pending or ready.
    pub fn poll_steps(&mut self) -> (steps: Vec<FetchStep>)
        requires
            !is_finished(old(self)@),
        ensures
            (final(self)@, step_views(steps@)) == fetch_poll(old(self)@),
    {
        let ghost start = self@;
        let mut steps: Vec<FetchStep> = Vec::new();
        let first = self.step();
        let again = match first {
            FetchStep::Started(_) | FetchStep::HeadReady(_) => true,
            _ => false,
        };
        steps.push(first);
        if again {
            let second = self.step();
            steps.push(second);
            proof {
                let (n1, s1) = fetch_next(start);
                let (n2, s2) = fetch_next(n1);
                assert(step_views(steps@) =~= seq![s1, s2]);
                assert(seq![s1] + seq![s2] =~= seq![s1, s2]);
                assert(poll_from(n1, 1) == (n2, seq![s2]));
            }
        } else {
            proof {
                assert(step_views(steps@) =~= seq![fetch_next(start).1]);
            }
        }
        steps
    }
}

/// A poll of the fetch future that has not finished ends with exactly one
/// pending or ready step, every step before it is neither, and after a
/// ready step the future is finished: each pending poll asks for exactly
/// one wake-up, a ready poll for none, and the result comes at most once.
pub proof fn law_poll_wakes_once(v: FetchView)
    requires
        !is_finished(v),
    ensures
        fetch_poll(v).1.len() >= 1,
        ends_poll(fetch_poll(v).1.last()),
        forall|i: int| 0 <= i < fetch_poll(v).1.len() - 1 ==> !ends_poll(#[trigger] fetch_poll(v).1[i]),
        fetch_poll(v).1.last() is Ready ==> fetch_poll(v).0 is Returned,
{
    reveal_with_fuel(poll_from, 3);
    match v {
        FetchView::Unresumed(id) => {
            assert(fetch_poll(v).1 =~= seq![StepView::Started(conn_text(id)), StepView::Pending(0)]);
        },
        FetchView::Suspend0(conn, polled) => {
            if polled {
                assert(fetch_poll(v).1 =~= seq![StepView::HeadReady(conn + "/head"@), StepView::Pending(1)]);
            } else {
                assert(fetch_poll(v).1 =~= seq![StepView::Pending(0)]);
            }
        },
        FetchView::Suspend1(head, polled) => {
            if polled {
                assert(fetch_poll(v).1 =~= seq![StepView::Ready(head + "+body"@)]);
            } else {
                assert(fetch_poll(v).1 =~= seq![StepView::Pending(1)]);
            }
        },
        _ => {},
    }
}

/// Driven from its start, the fetch state machine is pending exactly twice
/// and then yields `conn-{id}/head+body`, as the `async fn` it stands for.
pub proof fn law_fetch_completes(id: u32)
    ensures
        run_fetch(FetchView::Unresumed(id), 5) == Some((2nat, conn_text(id) + "/head"@ + "+body"@)),
{
    reveal_with_fuel(run_fetch, 6);
}

/// The states of a future with one suspension point and no self-reference:
///
/// ```text
/// async fn fetch(id: u32) -> String {
///     let conn = format!("conn-{id}");
///     YieldOnce::new().await;
///     format!("{conn}/body")
/// }
/// ```
pub enum PlainState {
    Unresumed { id: u32 },
    Suspend0 { conn: String, awaitee: YieldOnce },
    Done,
}

pub struct PlainFetch {
    state: PlainState,
}

/// The abstract state of [`PlainFetch`].
pub enum PlainView {
    Unresumed(u32),
    Suspend0(Seq<char>, bool),
    Done,
}

/// What one step of [`PlainFetch`] did.
pub enum PlainStep {
    /// Left `Unresumed`; the connection is named.
    Started,
    /// The awaited future is pending; the task's waker must be woken.
    Pending,
    /// The result.
    Ready(String),
}

pub enum PlainStepView {
    Started,
    Pending,
    Ready(Seq<char>),
}

impl PlainStep {
    pub open spec fn view(&self) -> PlainStepView {
        match self {
            PlainStep::Started => PlainStepView::Started,
            PlainStep::Pending => PlainStepView::Pending,
            PlainStep::Ready(s) => PlainStepView::Ready(s@),
        }
    }
}

pub open spec fn plain_next(v: PlainView) -> (PlainView, PlainStepView) {
    match v {
        PlainView::Unresumed(id) => (PlainView::Suspend0(conn_text(id), false), PlainStepView::Started),
        PlainView::Suspend0(conn, polled) => if polled {
            (PlainView::Done, PlainStepView::Ready(conn + "/body"@))
        } else {
            (PlainView::Suspend0(conn, true), PlainStepView::Pending)
        },
        PlainView::Done => (PlainView::Done, PlainStepView::Pending),
    }
}

/// Steps from `v` until the result, with at most `fuel` steps: how many
/// steps were pending, and the result.
pub open spec fn run_plain(v: PlainView, fuel: nat) -> Option<(nat, Seq<char>)>
    decreases fuel,
{
    if fuel == 0 || v is Done {
        None
    } else {
        let (next, step) = plain_next(v);
        match step {
            PlainStepView::Ready(out) => Some((0, out)),
            PlainStepView::Pending => match run_plain(next, (fuel - 1) as nat) {
                Some((n, out)) => Some((n + 1, out)),
                None => None,
            },
            PlainStepView::Started => run_plain(next, (fuel - 1) as nat),
        }
    }
}

impl View for PlainFetch {
    type V = PlainView;

    closed spec fn view(&self) -> PlainView {
        match self.state {
            PlainState::Unresumed { id } => PlainView::Unresumed(id),
            PlainState::Suspend0 { conn, awaitee } => PlainView::Suspend0(conn@, awaitee.was_polled()),
            PlainState::Done => PlainView::Done,
        }
    }
}

/// A fresh plain fetch state machine for `id`.
pub fn plain_fetch(id: u32) -> (f: PlainFetch)
    ensures
        f@ == PlainView::Unresumed(id),
{
    PlainFetch { state: PlainState::Unresumed { id } }
}

impl PlainFetch {
    /// The machine has produced its result and may not step.
    pub fn is_done(&self) -> (b: bool)
        ensures
            b == (self@ is Done),
    {
        match self.state {
            PlainState::Done => true,
            _ => false,
        }
    }

    /// Runs the machine to its next decision.
    pub fn step(&mut self) -> (s: PlainStep)
        requires
            !(old(self)@ is Done),
        ensures
            (final(self)@, s.view()) == plain_next(old(self)@),
    {
        let mut state = PlainState::Done;
        std::mem::swap(&mut state, &mut self.state);
        match state {
            PlainState::Unresumed { id } => {
                let mut conn = "conn-".to_owned();
                let digits = decimal_text(id);
                conn.append(digits.as_str());
                self.state = PlainState::Suspend0 { conn, awaitee: YieldOnce::new() };
                PlainStep::Started
            },
            PlainState::Suspend0 { conn, mut awaitee } => {
                match awaitee.poll_step() {
                    Readiness::PendingWake => {
                        self.state = PlainState::Suspend0 { conn, awaitee };
                        PlainStep::Pending
                    },
                    Readiness::Ready => {
                        let mut out = conn;
                        out.append("/body");
                        PlainStep::Ready(out)
                    },
                }
            },
            PlainState::Done => PlainStep::Pending,
        }
    }
}

/// Driven from its start, the plain fetch state machine is pending exactly
/// once and then yields `conn-{id}/body`.
pub proof fn law_plain_fetch_completes(id: u32)
    ensures
        run_plain(PlainView::Unresumed(id), 3) == Some((1nat, conn_text(id) + "/body"@)),
{
    reveal_with_fuel(run_plain, 4);
}

} // verus!
