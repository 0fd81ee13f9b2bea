use vstd::prelude::*;

verus! {

/// What to do with an output pad that the decode stage has just exposed.
#[derive(PartialEq, Eq, Structural, Clone, Copy, Debug)]
pub enum PadAction {
    /// Link it to the discard sink's input.
    Link,
    /// Leave it unlinked: the sink already takes another stream.
    Ignore,
}

pub open spec fn pad_action_spec(sink_linked: bool) -> PadAction {
    if sink_linked {
        PadAction::Ignore
    } else {
        PadAction::Link
    }
}

/// Decides about a new decode output pad from whether the discard sink's
/// input is linked already. One parsed stream is enough for tags to flow.
pub fn pad_action(sink_linked: bool) -> (a: PadAction)
    ensures
        a == pad_action_spec(sink_linked),
{
    if sink_linked {
        PadAction::Ignore
    } else {
        PadAction::Link
    }
}

/// The decisions for `n` pads exposed one after another, the sink starting
/// out linked or not; after either decision the sink is linked.
pub open spec fn pad_actions(sink_linked: bool, n: nat) -> Seq<PadAction>
    decreases n,
{
    if n == 0 {
        Seq::empty()
    } else {
        seq![pad_action_spec(sink_linked)] + pad_actions(true, (n - 1) as nat)
    }
}

proof fn lemma_linked_sink_ignores_all(n: nat)
    ensures
        pad_actions(true, n).len() == n,
        forall|i: int| 0 <= i < n ==> #[trigger] pad_actions(true, n)[i] == PadAction::Ignore,
    decreases n,
{
    if n > 0 {
        lemma_linked_sink_ignores_all((n - 1) as nat);
    }
}

/// Linking is idempotent: of the pads exposed to an unlinked sink, the
/// first is linked and every later one is left alone.
pub proof fn lemma_link_once(n: nat)
    requires
        n >= 1,
    ensures
        pad_actions(false, n).len() == n,
        pad_actions(false, n)[0] == PadAction::Link,
        forall|i: int| 1 <= i < n ==> #[trigger] pad_actions(false, n)[i] == PadAction::Ignore,
{
    lemma_linked_sink_ignores_all((n - 1) as nat);
    let tail = pad_actions(true, (n - 1) as nat);
    assert forall|i: int| 1 <= i < n implies #[trigger] pad_actions(false, n)[i] == PadAction::Ignore by {
        assert(pad_actions(false, n)[i] == tail[i - 1]);
    }
}

} // verus!
