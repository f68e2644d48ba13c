//! The proven chain tip, shared between the tasks that advance it and those that wait for it.

use tokio::sync::watch;
use vstd::prelude::*;

use crate::block_number::BlockNumber;

verus! {

/// The sending end of a channel that holds one value.
#[verifier::external_type_specification]
#[verifier::external_body]
#[verifier::reject_recursive_types(T)]
pub struct ExWatchSender<T>(watch::Sender<T>);

/// The receiving end of a channel that holds one value.
#[verifier::external_type_specification]
#[verifier::external_body]
#[verifier::reject_recursive_types(T)]
pub struct ExWatchReceiver<T>(watch::Receiver<T>);

/// The later one of two tips.
pub open spec fn later_tip(tip: BlockNumber, new_tip: BlockNumber) -> BlockNumber {
    if new_tip@ > tip@ {
        new_tip
    } else {
        tip
    }
}

/// Advances a tip to `new_tip` if that is greater. Returns whether it was.
pub fn advance_tip(current: &mut BlockNumber, new_tip: BlockNumber) -> (r: bool)
    ensures
        r == (new_tip@ > old(current)@),
        *final(current) == later_tip(*old(current), new_tip),
        new_tip.0 > old(current).0 ==> *final(current) == new_tip,
        new_tip.0 <= old(current).0 ==> *final(current) == *old(current),
{
    if new_tip.0 > current.0 {
        *current = new_tip;
        true
    } else {
        false
    }
}

/// The tip after it was advanced to each of the given ones in turn.
pub open spec fn advanced(tip: BlockNumber, new_tips: Seq<BlockNumber>) -> BlockNumber
    decreases new_tips.len(),
{
    if new_tips.len() == 0 {
        tip
    } else {
        later_tip(advanced(tip, new_tips.drop_last()), new_tips.last())
    }
}

/// However the tasks that advance a tip take turns, the tip ends at the greatest block that one of
/// them advanced it to, and never falls behind where it started.
pub proof fn lemma_tip_only_increases(tip: BlockNumber, new_tips: Seq<BlockNumber>)
    ensures
        advanced(tip, new_tips)@ >= tip@,
        forall|i: int|
            0 <= i < new_tips.len() ==> advanced(tip, new_tips)@ >= (#[trigger] new_tips[i])@,
        advanced(tip, new_tips) == tip || new_tips.contains(advanced(tip, new_tips)),
    decreases new_tips.len(),
{
    if new_tips.len() > 0 {
        let before = new_tips.drop_last();
        lemma_tip_only_increases(tip, before);
        assert forall|i: int| 0 <= i < new_tips.len() implies advanced(tip, new_tips)@ >= (
        #[trigger] new_tips[i])@ by {
            if i < before.len() {
                assert(before[i] == new_tips[i]);
            }
        }
        if advanced(tip, new_tips) == new_tips.last() {
            assert(new_tips[new_tips.len() - 1] == advanced(tip, new_tips));
        } else if before.contains(advanced(tip, before)) {
            let i = choose|i: int| 0 <= i < before.len() && before[i] == advanced(tip, before);
            assert(new_tips[i] == advanced(tip, new_tips));
        }
    }
}

/// A tip that was advanced to a block stays where it is if it is advanced to that block again.
pub proof fn lemma_second_advance_changes_nothing(tip: BlockNumber, new_tip: BlockNumber)
    ensures
        later_tip(tip, new_tip)@ >= new_tip@,
        later_tip(later_tip(tip, new_tip), new_tip) == later_tip(tip, new_tip),
{
}

/// The tips from a block on.
pub open spec fn tips_from(tip: BlockNumber) -> Set<BlockNumber> {
    Set::new(|block_num: BlockNumber| block_num@ >= tip@)
}

/// The values that a channel holds one after another are among these. They are fixed when the channel
/// is created, and all its senders have the same.
pub uninterp spec fn sent_tips(sender: watch::Sender<BlockNumber>) -> Set<BlockNumber>;

/// The values that a receiver sees one after another are among these.
pub uninterp spec fn received_tips(receiver: watch::Receiver<BlockNumber>) -> Set<BlockNumber>;

/// Creates a channel that holds `tip` by `watch::channel`. Its values are to stay among the tips from
/// there on, which a change of the value has to respect. Which of them the channel holds changes with
/// time, and nothing is said of it.
#[verifier::external_body]
fn watch_channel(tip: BlockNumber) -> (r: (
    watch::Sender<BlockNumber>,
    watch::Receiver<BlockNumber>,
))
    ensures
        sent_tips(r.0) == tips_from(tip),
        received_tips(r.1) == tips_from(tip),
{
    watch::channel(tip)
}

/// Reads the value of a channel by `watch::Sender::borrow`. Any task may have advanced it: it is one of
/// those that the channel may hold.
#[verifier::external_body]
fn watch_read(sender: &watch::Sender<BlockNumber>) -> (r: BlockNumber)
    ensures
        sent_tips(*sender).contains(r),
{
    *sender.borrow()
}

/// What advancing a tip did at that moment.
#[derive(Clone, Copy, Debug, PartialEq, Eq, Structural)]
pub struct TipAdvance {
    before: BlockNumber,
    after: BlockNumber,
    notified: bool,
}

impl TipAdvance {
    /// The tip before it was advanced.
    pub closed spec fn spec_before(self) -> BlockNumber {
        self.before
    }

    /// Whether a tip was advanced to `new_tip`: it became the later one of the two, and the receivers
    /// were notified only if that changed it.
    pub closed spec fn is_advance_to(self, new_tip: BlockNumber) -> bool {
        &&& self.after == later_tip(self.before, new_tip)
        &&& self.notified == (new_tip@ > self.before@)
    }

    /// Returns the tip before it was advanced.
    pub fn before(&self) -> (r: BlockNumber)
        ensures
            r == self.spec_before(),
    {
        self.before
    }

    /// Returns the tip after it was advanced.
    pub fn after(&self) -> (r: BlockNumber)
        ensures
            forall|new_tip: BlockNumber| #[trigger]
                self.is_advance_to(new_tip) ==> r == later_tip(self.spec_before(), new_tip),
    {
        self.after
    }

    /// Returns whether the receivers were notified.
    pub fn notified(&self) -> (r: bool)
        ensures
            forall|new_tip: BlockNumber| #[trigger]
                self.is_advance_to(new_tip) ==> r == (new_tip@ > self.spec_before()@),
    {
        self.notified
    }
}

/// Advances a tip by `advance_tip`, and keeps what it was before and after.
fn note_advance(current: &mut BlockNumber, new_tip: BlockNumber, advance: &mut TipAdvance) -> (r:
    bool)
    ensures
        r == (new_tip@ > old(current)@),
        *final(current) == later_tip(*old(current), new_tip),
        final(advance).before == *old(current),
        final(advance).after == *final(current),
{
    let before = *current;
    let changed = advance_tip(current, new_tip);
    *advance = TipAdvance { before, after: *current, notified: changed };
    changed
}

/// Has `watch::Sender::send_if_modified` advance the value of a channel by `note_advance`, and wake the
/// receivers if that changed it. From whatever value the channel may hold, that has to lead to another
/// such value. Which value the channel held depends on the moment: it is one of those that it may hold.
#[verifier::external_body]
fn watch_advance(sender: &watch::Sender<BlockNumber>, new_tip: BlockNumber) -> (r: TipAdvance)
    requires
        forall|tip: BlockNumber| #[trigger]
            sent_tips(*sender).contains(tip) ==> sent_tips(*sender).contains(
                later_tip(tip, new_tip),
            ),
    ensures
        sent_tips(*sender).contains(r.before),
        r.after == later_tip(r.before, new_tip),
        r.notified == (new_tip@ > r.before@),
{
    let mut advance = TipAdvance { before: new_tip, after: new_tip, notified: false };
    let notified = sender.send_if_modified(|tip| note_advance(tip, new_tip, &mut advance));
    TipAdvance { notified, ..advance }
}

/// Creates a receiver of a channel by `watch::Sender::subscribe`.
#[verifier::external_body]
fn watch_subscribe(sender: &watch::Sender<BlockNumber>) -> (r: watch::Receiver<BlockNumber>)
    ensures
        received_tips(r) == sent_tips(*sender),
{
    sender.subscribe()
}

/// Creates another sender of the same channel by `watch::Sender::clone`.
#[verifier::external_body]
fn watch_clone(sender: &watch::Sender<BlockNumber>) -> (r: watch::Sender<BlockNumber>)
    ensures
        sent_tips(r) == sent_tips(*sender),
{
    sender.clone()
}

/// A handle that advances the proven chain tip. All clones share the tip.
pub struct ProvenTipWriter(watch::Sender<BlockNumber>);

impl Clone for ProvenTipWriter {
    fn clone(&self) -> (r: Self)
        ensures
            r.tips() == self.tips(),
    {
        proof {
            use_type_invariant(self);
        }
        ProvenTipWriter(watch_clone(&self.0))
    }
}

impl ProvenTipWriter {
    /// The tips that the handle's reads return are among these.
    pub closed spec fn tips(self) -> Set<BlockNumber> {
        sent_tips(self.0)
    }

    /// The tip may be advanced from wherever it is.
    #[verifier::type_invariant]
    closed spec fn only_advances(self) -> bool {
        exists|start: BlockNumber| sent_tips(self.0) == #[trigger] tips_from(start)
    }

    /// Creates a handle of a tip that starts at `tip`, with a receiver. Since the tip is shared, what
    /// a later read returns is up to all holders of a handle, but it never falls behind `tip`.
    pub fn new(tip: BlockNumber) -> (r: (Self, watch::Receiver<BlockNumber>))
        ensures
            r.0.tips() == tips_from(tip),
            received_tips(r.1) == tips_from(tip),
    {
        let (sender, receiver) = watch_channel(tip);
        (ProvenTipWriter(sender), receiver)
    }

    /// Returns the tip as it is now: not behind the one that the handle was created with.
    pub fn read(&self) -> (r: BlockNumber)
        ensures
            self.tips().contains(r),
    {
        watch_read(&self.0)
    }

    /// Advances the tip by `advance_tip`, and notifies the receivers only if that changed it. Returns
    /// what the tip was at that moment, and what it became.
    pub fn advance(&self, new_tip: BlockNumber) -> (r: TipAdvance)
        ensures
            r.is_advance_to(new_tip),
            self.tips().contains(r.spec_before()),
    {
        proof {
            use_type_invariant(self);
        }
        watch_advance(&self.0, new_tip)
    }

    /// Returns a receiver of the same tip, which wakes whenever the tip advances.
    pub fn subscribe(&self) -> (r: watch::Receiver<BlockNumber>)
        ensures
            received_tips(r) == self.tips(),
    {
        watch_subscribe(&self.0)
    }
}

/// An advance leaves the tip at the block that it was advanced to, if that lies ahead, and where it was
/// otherwise. The values of a channel are the tips from its start on.
pub proof fn lemma_tips_move_forward(tip: BlockNumber, new_tip: BlockNumber)
    ensures
        later_tip(tip, new_tip).0 == (if new_tip.0 > tip.0 {
            new_tip.0
        } else {
            tip.0
        }),
        tips_from(tip).contains(new_tip) <==> new_tip.0 >= tip.0,
        tips_from(tip).contains(later_tip(tip, new_tip)),
{
}

} // verus!
