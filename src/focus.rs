//! The switch-key combination and the round-robin choice of the next focus.
//! Focus index 0 is the local machine; index `k > 0` is the client in slot `k - 1`.
use crate::event::Event;
use vstd::prelude::*;

verus! {

/// Index `i` names a destination that exists: local, or a live client slot.
pub open spec fn live(clients: Set<usize>, i: int) -> bool {
    i == 0 || (0 < i <= usize::MAX as int + 1 && clients.contains((i - 1) as usize))
}

/// `r` is where focus goes from `current` when the combination is completed:
/// the smallest live index above `current`, or local when there is none. This
/// cycles round-robin over local and every live client, skipping free slots.
pub open spec fn is_next_focus(clients: Set<usize>, current: int, r: int) -> bool {
    &&& live(clients, r)
    &&& r == 0 ==> forall|k: usize| clients.contains(k) ==> k + 1 <= current
    &&& r != 0 ==> r > current && forall|k: usize|
        clients.contains(k) && k + 1 > current ==> r <= k + 1
}

/// The held state of each switch key after the event `e`.
pub open spec fn press(keys: Seq<u16>, held: Seq<bool>, e: Event) -> Seq<bool> {
    match e {
        Event::Key { code, down } => Seq::new(
            held.len(),
            |i: int| if keys[i] == code { down } else { held[i] },
        ),
        _ => held,
    }
}

/// Every switch key is held.
pub open spec fn all_held(held: Seq<bool>) -> bool {
    forall|i: int| 0 <= i < held.len() ==> held[i]
}

/// The event `e` completes the combination: not all keys were held before it,
/// all are after it.
pub open spec fn completes(keys: Seq<u16>, held: Seq<bool>, e: Event) -> bool {
    !all_held(held) && all_held(press(keys, held, e))
}

/// The configured switch keys and which of them are held down.
pub struct Hotkey {
    keys: Vec<u16>,
    held: Vec<bool>,
}

impl Hotkey {
    pub closed spec fn keys(&self) -> Seq<u16> {
        self.keys@
    }

    pub closed spec fn held(&self) -> Seq<bool> {
        self.held@
    }

    pub open spec fn wf(&self) -> bool {
        self.held().len() == self.keys().len()
    }

    /// A combination of `keys`, none of them held.
    pub fn new(keys: Vec<u16>) -> (r: Hotkey)
        ensures
            r.wf(),
            r.keys() == keys@,
            r.held() == Seq::new(keys@.len(), |i: int| false),
    {
        let mut held: Vec<bool> = Vec::new();
        let mut i: usize = 0;
        while i < keys.len()
            invariant
                i <= keys@.len(),
                held@ == Seq::new(i as nat, |j: int| false),
            decreases keys@.len() - i,
        {
            held.push(false);
            i = i + 1;
            assert(held@ =~= Seq::new(i as nat, |j: int| false));
        }
        Hotkey { keys, held }
    }

    /// Notes what `e` does to the switch keys; true when it completes the
    /// combination.
    pub fn feed(&mut self, e: Event) -> (r: bool)
        requires
            old(self).wf(),
        ensures
            final(self).wf(),
            final(self).keys() == old(self).keys(),
            final(self).held() == press(old(self).keys(), old(self).held(), e),
            r == completes(old(self).keys(), old(self).held(), e),
    {
        let was_full = self.is_full();
        if let Event::Key { code, down } = e {
            let mut i: usize = 0;
            while i < self.keys.len()
                invariant
                    i <= self.keys@.len(),
                    self.keys@ == old(self).keys@,
                    self.held@.len() == self.keys@.len(),
                    forall|j: int|
                        0 <= j < self.held@.len() ==> self.held@[j] == if j < i
                            && self.keys@[j] == code {
                            down
                        } else {
                            old(self).held@[j]
                        },
                decreases self.keys@.len() - i,
            {
                if self.keys[i] == code {
                    self.held.set(i, down);
                }
                i = i + 1;
            }
            assert(self.held@ =~= press(old(self).keys(), old(self).held(), e));
        }
        let now_full = self.is_full();
        !was_full && now_full
    }

    /// Whether every switch key is held.
    pub fn is_full(&self) -> (r: bool)
        ensures
            r == all_held(self.held()),
    {
        let mut i: usize = 0;
        while i < self.held.len()
            invariant
                i <= self.held@.len(),
                forall|j: int| 0 <= j < i ==> self.held@[j],
            decreases self.held@.len() - i,
        {
            if !self.held[i] {
                return false;
            }
            i = i + 1;
        }
        true
    }
}

/// Focus switches only when the combination becomes fully held: never on an
/// event that leaves a key up, never on a release, and never again while the
/// whole combination stays held.
pub proof fn lemma_switch_only_on_completion(keys: Seq<u16>, held: Seq<bool>, e: Event)
    requires
        held.len() == keys.len(),
    ensures
        !all_held(press(keys, held, e)) ==> !completes(keys, held, e),
        all_held(held) ==> !completes(keys, held, e),
        (e matches Event::Key { down, .. } && !down) ==> !completes(keys, held, e),
        completes(keys, held, e) ==> all_held(press(keys, held, e)),
{
    if let Event::Key { code, down } = e {
        if !down && !all_held(held) {
            let i = choose|i: int| 0 <= i < held.len() && !held[i];
            let p = press(keys, held, e);
            assert(!p[i]);
        }
    }
}

/// There is one next focus: focus cycles round-robin over local and the live
/// clients, to the first live index after `current`, and back to local past
/// the last one.
pub proof fn lemma_next_focus_unique(clients: Set<usize>, current: int, r: int, q: int)
    requires
        current >= 0,
        is_next_focus(clients, current, r),
        is_next_focus(clients, current, q),
    ensures
        r == q,
{
    if r != 0 {
        let kr = (r - 1) as usize;
        assert(clients.contains(kr) && kr + 1 == r);
    }
    if q != 0 {
        let kq = (q - 1) as usize;
        assert(clients.contains(kq) && kq + 1 == q);
    }
}

/// From local, focus goes to the lowest live client slot; from the last live
/// client it wraps back to local; and no live client above `current` is
/// passed over.
pub proof fn lemma_focus_round_robin(clients: Set<usize>, current: int, r: int)
    requires
        current >= 0,
        is_next_focus(clients, current, r),
    ensures
        forall|k: usize| #[trigger] clients.contains(k) && k + 1 > current ==> r != 0 && r <= k + 1,
        (forall|k: usize| #[trigger] clients.contains(k) ==> k + 1 <= current) ==> r == 0,
        r != 0 ==> clients.contains((r - 1) as usize) && r > current,
{
    assert forall|k: usize| #[trigger] clients.contains(k) && k + 1 > current implies r != 0 && r
        <= k + 1 by {
        if r == 0 {
            assert(k + 1 <= current);
        }
    }
}

} // verus!
