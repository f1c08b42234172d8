//! The router: the single owner of the device and client registries and of the
//! focus. Each method takes one thing that happened (a connection accepted, a
//! device found, an event read, a send that failed) and says what to do next;
//! the task that runs the loop carries the result out.
use crate::event::{
    announces, lemma_creations_open, lemma_open_in_push, lemma_orderly_push, open_in, orderly,
    valid_device, DeviceInfo, Event, Update,
};
use crate::focus::{completes, is_next_focus, live, press, Hotkey};
use crate::registry::{
    client_slab_contains, client_slab_insert, client_slab_keys, client_slab_len,
    client_slab_new, client_slab_remove, client_slots, device_slab_contains, device_slab_get,
    device_slab_insert, device_slab_keys, device_slab_new, device_slab_remove, device_slots,
};
use slab::Slab;
use vstd::prelude::*;

verus! {

/// What ends the server.
#[derive(Debug)]
pub enum Error {
    /// Accepting a connection failed.
    Network(String),
    /// Discovering or reading a device failed other than by its going away.
    Input(String),
    /// An event sent back to its own device found that device's queue full.
    Overflow,
}

/// Where one input event goes.
#[derive(Debug)]
pub enum Route {
    /// Back into the device it came from, without waiting.
    Local { device: usize, event: Event },
    /// To the session in this client slot, waiting for room.
    Remote { client: usize, update: Update },
}

/// How a send without waiting into a device's queue went.
#[derive(Clone, Copy, Debug, PartialEq, Eq, Structural)]
pub enum Loopback {
    Sent,
    Closed,
    Full,
}

/// Why reading a device failed.
#[derive(Debug)]
pub enum DeviceFailure {
    /// The device is gone.
    Disconnected,
    /// Anything else, described.
    Other(String),
}

/// One update for one client session.
#[derive(Debug)]
pub struct Delivery {
    pub client: usize,
    pub update: Update,
}

/// The device id an update is about.
pub open spec fn update_id(u: Update) -> usize {
    match u {
        Update::CreateDevice { id, .. } => id,
        Update::DestroyDevice { id } => id,
        Update::Event { id, .. } => id,
    }
}

/// `s` announces every registered device once, in increasing id order.
pub open spec fn is_snapshot(s: Seq<Update>, devices: Map<usize, DeviceInfo>) -> bool {
    &&& forall|i: int, j: int| 0 <= i < j < s.len() ==> update_id(s[i]) < update_id(s[j])
    &&& forall|i: int|
        0 <= i < s.len() ==> devices.contains_key(update_id(#[trigger] s[i])) && announces(
            s[i],
            update_id(s[i]),
            devices[update_id(s[i])],
        )
    &&& forall|k: usize|
        devices.contains_key(k) ==> exists|i: int| 0 <= i < s.len() && update_id(s[i]) == k
}

/// `ds` is addressed to every client once, in increasing slot order.
pub open spec fn to_each(ds: Seq<Delivery>, clients: Set<usize>) -> bool {
    &&& forall|i: int, j: int| 0 <= i < j < ds.len() ==> ds[i].client < ds[j].client
    &&& forall|i: int| 0 <= i < ds.len() ==> clients.contains(#[trigger] ds[i].client)
    &&& forall|k: usize| clients.contains(k) ==> exists|i: int| 0 <= i < ds.len() && ds[i].client == k
}

/// The router's state: devices, client sessions, focus and switch keys.
pub struct Router {
    devices: Slab<DeviceInfo>,
    clients: Slab<()>,
    focused: Option<usize>,
    hotkey: Hotkey,
    handed: Ghost<Map<usize, Seq<Update>>>,
}

impl Router {
    /// The registered devices, by slot.
    pub closed spec fn devices(&self) -> Map<usize, DeviceInfo> {
        device_slots(self.devices)
    }

    /// The occupied client slots.
    pub closed spec fn clients(&self) -> Set<usize> {
        client_slots(self.clients)
    }

    /// The focus: 0 for local, `k` for client slot `k - 1`.
    pub closed spec fn focus(&self) -> int {
        match self.focused {
            None => 0,
            Some(k) => k + 1,
        }
    }

    /// For each client slot, every update handed out for that session so far:
    /// its announcements at accept time, then each delivery and routed event.
    pub closed spec fn streams(&self) -> Map<usize, Seq<Update>> {
        self.handed@
    }

    /// The configured switch keys.
    pub closed spec fn switch_keys(&self) -> Seq<u16> {
        self.hotkey.keys()
    }

    /// Which switch keys are held.
    pub closed spec fn held(&self) -> Seq<bool> {
        self.hotkey.held()
    }

    pub open spec fn wf(&self) -> bool {
        &&& self.held().len() == self.switch_keys().len()
        &&& self.devices().dom().finite()
        &&& forall|k: usize| #[trigger] self.devices().contains_key(k) ==> valid_device(self.devices()[k])
        &&& self.clients().finite()
        &&& live(self.clients(), self.focus())
        &&& self.streams().dom() == self.clients()
        &&& forall|c: usize| #[trigger] self.clients().contains(c) ==> orderly(self.streams()[c])
        &&& forall|c: usize, k: usize|
            #![trigger self.clients().contains(c), self.devices().contains_key(k)]
            self.clients().contains(c) && self.devices().contains_key(k) ==> open_in(
                self.streams()[c],
                k,
            )
    }

    /// A router with no devices, no clients, focus on local and no key held.
    pub fn new(switch_keys: Vec<u16>) -> (r: Router)
        ensures
            r.wf(),
            r.devices().dom().len() == 0,
            r.clients().len() == 0,
            r.focus() == 0,
            r.switch_keys() == switch_keys@,
            r.held() == Seq::new(switch_keys@.len(), |i: int| false),
    {
        let r = Router {
            devices: device_slab_new(),
            clients: client_slab_new(),
            focused: None,
            hotkey: Hotkey::new(switch_keys),
            handed: Ghost(Map::empty()),
        };
        assert(r.streams().dom() =~= r.clients());
        r
    }

    /// The client slot that has focus, or `None` when it is local.
    pub fn focused_client(&self) -> (r: Option<usize>)
        ensures
            r is None <==> self.focus() == 0,
            r matches Some(k) ==> self.focus() == k + 1,
    {
        self.focused
    }

    /// The number of client slots in use.
    pub fn client_count(&self) -> (r: usize)
        ensures
            r == self.clients().len(),
    {
        client_slab_len(&self.clients)
    }

    /// Whether client slot `k` is in use.
    pub fn has_client(&self, k: usize) -> (r: bool)
        ensures
            r == self.clients().contains(k),
    {
        client_slab_contains(&self.clients, k)
    }

    /// Whether device slot `k` is in use.
    pub fn has_device(&self, k: usize) -> (r: bool)
        ensures
            r == self.devices().contains_key(k),
    {
        device_slab_contains(&self.devices, k)
    }

    /// The next focus when the combination is completed: the first live client
    /// slot after the focused one, or local when there is none.
    fn next_focus(&self) -> (r: Option<usize>)
        requires
            self.wf(),
        ensures
            is_next_focus(
                self.clients(),
                self.focus(),
                match r {
                    None => 0,
                    Some(k) => k + 1,
                },
            ),
    {
        let keys = client_slab_keys(&self.clients);
        let mut i: usize = 0;
        while i < keys.len()
            invariant
                i <= keys@.len(),
                forall|j: int, l: int| 0 <= j < l < keys@.len() ==> keys@[j] < keys@[l],
                forall|m: usize| self.clients().contains(m) <==> keys@.contains(m),
                forall|j: int| 0 <= j < i ==> keys@[j] + 1 <= self.focus(),
            decreases keys@.len() - i,
        {
            let k = keys[i];
            let after = match self.focused {
                None => true,
                Some(c) => k > c,
            };
            if after {
                proof {
                    assert(keys@.contains(k));
                    assert forall|m: usize|
                        self.clients().contains(m) && m + 1 > self.focus() implies k + 1 <= m
                        + 1 by {
                        assert(keys@.contains(m));
                        let j = choose|j: int| 0 <= j < keys@.len() && keys@[j] == m;
                        if j < i {
                        } else if j > i {
                            assert(keys@[i as int] < keys@[j]);
                        }
                    }
                }
                return Some(k);
            }
            i = i + 1;
        }
        proof {
            assert forall|m: usize| self.clients().contains(m) implies m + 1 <= self.focus() by {
                assert(keys@.contains(m));
            }
        }
        None
    }

    /// The announcements of device `id`, described as `info`, to every client.
    fn announce_all(&self, id: usize, info: &DeviceInfo) -> (r: Vec<Delivery>)
        ensures
            to_each(r@, self.clients()),
            forall|i: int| 0 <= i < r@.len() ==> announces(#[trigger] r@[i].update, id, *info),
    {
        let keys = client_slab_keys(&self.clients);
        let mut r: Vec<Delivery> = Vec::new();
        let mut i: usize = 0;
        while i < keys.len()
            invariant
                i <= keys@.len(),
                r@.len() == i,
                forall|j: int| 0 <= j < i ==> (#[trigger] r@[j]).client == keys@[j],
                forall|j: int| 0 <= j < i ==> announces(#[trigger] r@[j].update, id, *info),
            decreases keys@.len() - i,
        {
            r.push(Delivery { client: keys[i], update: Update::CreateDevice { id, info: info.duplicate() } });
            i = i + 1;
        }
        proof {
            assert forall|k: usize| self.clients().contains(k) implies exists|i: int|
                0 <= i < r@.len() && r@[i].client == k by {
                assert(keys@.contains(k));
                let i = choose|i: int| 0 <= i < keys@.len() && keys@[i] == k;
                assert(r@[i].client == k);
            }
            assert forall|i: int| 0 <= i < r@.len() implies self.clients().contains(
                #[trigger] r@[i].client,
            ) by {
                assert(keys@.contains(keys@[i]));
            }
        }
        r
    }

    /// The deliveries telling every client that device `id` is gone.
    fn destroy_all(&self, id: usize) -> (r: Vec<Delivery>)
        ensures
            to_each(r@, self.clients()),
            forall|i: int| 0 <= i < r@.len() ==> (#[trigger] r@[i]).update == (Update::DestroyDevice { id }),
    {
        let keys = client_slab_keys(&self.clients);
        let mut r: Vec<Delivery> = Vec::new();
        let mut i: usize = 0;
        while i < keys.len()
            invariant
                i <= keys@.len(),
                r@.len() == i,
                forall|j: int| 0 <= j < i ==> (#[trigger] r@[j]).client == keys@[j],
                forall|j: int| 0 <= j < i ==> (#[trigger] r@[j]).update == (Update::DestroyDevice { id }),
            decreases keys@.len() - i,
        {
            r.push(Delivery { client: keys[i], update: Update::DestroyDevice { id } });
            i = i + 1;
        }
        proof {
            assert forall|k: usize| self.clients().contains(k) implies exists|i: int|
                0 <= i < r@.len() && r@[i].client == k by {
                assert(keys@.contains(k));
                let i = choose|i: int| 0 <= i < keys@.len() && keys@[i] == k;
                assert(r@[i].client == k);
            }
            assert forall|i: int| 0 <= i < r@.len() implies self.clients().contains(
                #[trigger] r@[i].client,
            ) by {
                assert(keys@.contains(keys@[i]));
            }
        }
        r
    }
}

impl Router {
    /// A connection was accepted. First the slots in `closed`, whose sessions
    /// are known to be gone, are freed, and focus falls back to local if its
    /// client went with them. Then a slot is taken for the new session; the
    /// result is its key and the announcements of every registered device, in
    /// slot order, which the session sends before anything else.
    pub fn accept_client(&mut self, closed: &Vec<usize>) -> (r: (usize, Vec<Update>))
        requires
            old(self).wf(),
        ensures
            final(self).wf(),
            ({
                let kept = old(self).clients().filter(|k: usize| !closed@.contains(k));
                &&& !kept.contains(r.0)
                &&& final(self).clients() == kept.insert(r.0)
                &&& final(self).focus() == if live(kept, old(self).focus()) {
                    old(self).focus()
                } else {
                    0
                }
            }),
            is_snapshot(r.1@, old(self).devices()),
            final(self).streams() == old(self).streams().restrict(final(self).clients().remove(r.0)).insert(r.0, r.1@),
            final(self).devices() == old(self).devices(),
            final(self).switch_keys() == old(self).switch_keys(),
            final(self).held() == old(self).held(),
    {
        let ghost start = self.clients();
        let mut i: usize = 0;
        while i < closed.len()
            invariant
                i <= closed@.len(),
                self.clients().finite(),
                self.clients() == start.filter(|k: usize| !closed@.subrange(0, i as int).contains(k)),
                self.devices() == old(self).devices(),
                self.hotkey == old(self).hotkey,
                self.focused == old(self).focused,
                self.handed == old(self).handed,
            decreases closed@.len() - i,
        {
            let k = closed[i];
            if client_slab_contains(&self.clients, k) {
                client_slab_remove(&mut self.clients, k);
            }
            proof {
                let before = closed@.subrange(0, i as int);
                let after = closed@.subrange(0, i as int + 1);
                assert(after =~= before.push(k));
                assert forall|x: usize| #[trigger] after.contains(x) <==> (before.contains(x) || x == k) by {
                    if x == k {
                        assert(after[i as int] == k);
                    }
                    if before.contains(x) {
                        let j = choose|j: int| 0 <= j < before.len() && before[j] == x;
                        assert(after[j] == x);
                    }
                }
            }
            i = i + 1;
            assert(self.clients() =~= start.filter(|k: usize| !closed@.subrange(0, i as int).contains(k)));
        }
        assert(closed@.subrange(0, closed@.len() as int) =~= closed@);
        if let Some(k) = self.focused {
            if !client_slab_contains(&self.clients, k) {
                self.focused = None;
            }
        }
        let snapshot = self.snapshot();
        let ghost kept = self.clients();
        let id = client_slab_insert(&mut self.clients);
        proof {
            let old_handed = self.handed@;
            self.handed = Ghost(old_handed.restrict(kept).insert(id, snapshot@));
            assert(self.streams().dom() =~= self.clients());
            assert(kept =~= self.clients().remove(id));
            assert forall|i: int| 0 <= i < snapshot@.len() implies (#[trigger] snapshot@[i] matches Update::CreateDevice { .. }) by {
                assert(announces(snapshot@[i], update_id(snapshot@[i]), self.devices()[update_id(snapshot@[i])]));
            }
            assert forall|c: usize, k: usize|
                self.clients().contains(c) && self.devices().contains_key(k) implies open_in(
                    self.streams()[c],
                    k,
                ) by {
                if c == id {
                    let at = choose|at: int| 0 <= at < snapshot@.len() && update_id(snapshot@[at]) == k;
                    lemma_creations_open(snapshot@, k, at);
                } else {
                    assert(old(self).clients().contains(c) && old(self).devices().contains_key(k));
                }
            }
            if snapshot@.len() > 0 {
                lemma_creations_open(snapshot@, update_id(snapshot@[0]), 0);
            }
            assert forall|c: usize| #[trigger] self.clients().contains(c) implies orderly(self.streams()[c]) by {
                if c != id {
                    assert(old(self).clients().contains(c));
                }
            }
        }
        (id, snapshot)
    }

    /// The announcements of every registered device, in slot order.
    fn snapshot(&self) -> (r: Vec<Update>)
        ensures
            is_snapshot(r@, self.devices()),
    {
        let keys = device_slab_keys(&self.devices);
        let mut r: Vec<Update> = Vec::new();
        let mut i: usize = 0;
        while i < keys.len()
            invariant
                i <= keys@.len(),
                r@.len() == i,
                forall|j: int, l: int| 0 <= j < l < keys@.len() ==> keys@[j] < keys@[l],
                forall|k: usize| self.devices().contains_key(k) <==> keys@.contains(k),
                forall|j: int| 0 <= j < i ==> update_id(#[trigger] r@[j]) == keys@[j],
                forall|j: int|
                    0 <= j < i ==> announces(
                        #[trigger] r@[j],
                        keys@[j],
                        self.devices()[keys@[j]],
                    ),
            decreases keys@.len() - i,
        {
            let k = keys[i];
            proof {
                assert(keys@.contains(k));
            }
            match device_slab_get(&self.devices, k) {
                Some(d) => {
                    r.push(Update::CreateDevice { id: k, info: d.duplicate() });
                },
                None => {},
            }
            i = i + 1;
        }
        proof {
            assert forall|j: int| 0 <= j < r@.len() implies self.devices().contains_key(
                update_id(#[trigger] r@[j]),
            ) by {
                assert(keys@.contains(keys@[j]));
            }
            assert forall|k: usize| self.devices().contains_key(k) implies exists|j: int|
                0 <= j < r@.len() && update_id(r@[j]) == k by {
                assert(keys@.contains(k));
                let j = choose|j: int| 0 <= j < keys@.len() && keys@[j] == k;
                assert(update_id(r@[j]) == k);
            }
        }
        r
    }

    /// A device was found. It takes a free slot, whose key is returned with
    /// its announcement to every client session.
    pub fn add_device(&mut self, info: DeviceInfo) -> (r: (usize, Vec<Delivery>))
        requires
            old(self).wf(),
            valid_device(info),
        ensures
            final(self).wf(),
            !old(self).devices().contains_key(r.0),
            final(self).devices() == old(self).devices().insert(r.0, info),
            to_each(r.1@, old(self).clients()),
            forall|i: int| 0 <= i < r.1@.len() ==> announces(#[trigger] r.1@[i].update, r.0, info),
            final(self).streams() == Map::new(
                |c: usize| old(self).clients().contains(c),
                |c: usize| old(self).streams()[c].push(Update::CreateDevice { id: r.0, info }),
            ),
            final(self).clients() == old(self).clients(),
            final(self).focus() == old(self).focus(),
            final(self).switch_keys() == old(self).switch_keys(),
            final(self).held() == old(self).held(),
    {
        let copy = info.duplicate();
        let ghost g = info;
        let id = device_slab_insert(&mut self.devices, info);
        let deliveries = self.announce_all(id, &copy);
        proof {
            let old_handed = self.handed@;
            let u = Update::CreateDevice { id, info: g };
            self.handed = Ghost(Map::new(
                |c: usize| old(self).clients().contains(c),
                |c: usize| old_handed[c].push(u),
            ));
            assert(self.streams().dom() =~= self.clients());
            assert forall|c: usize| #[trigger] self.clients().contains(c) implies orderly(self.streams()[c]) by {
                lemma_orderly_push(old_handed[c], u);
            }
            assert forall|c: usize, k: usize|
                self.clients().contains(c) && self.devices().contains_key(k) implies open_in(
                    self.streams()[c],
                    k,
                ) by {
                assert(self.streams()[c] == old_handed[c].push(u));
                assert(self.streams()[c].drop_last() =~= old_handed[c]);
                if k != id {
                    assert(old(self).devices().contains_key(k));
                    lemma_open_in_push(old_handed[c], u, k);
                }
            }
        }
        (id, deliveries)
    }

    /// An event was read from `device`. It goes where focus was before it: back
    /// into the device when that was local, else to that client. If it
    /// completes the switch-key combination, focus then moves on round-robin.
    pub fn route_event(&mut self, device: usize, event: Event) -> (r: Route)
        requires
            old(self).wf(),
            old(self).devices().contains_key(device),
        ensures
            final(self).wf(),
            final(self).held() == press(old(self).switch_keys(), old(self).held(), event),
            completes(old(self).switch_keys(), old(self).held(), event) ==> is_next_focus(
                old(self).clients(),
                old(self).focus(),
                final(self).focus(),
            ),
            !completes(old(self).switch_keys(), old(self).held(), event) ==> final(self).focus()
                == old(self).focus(),
            r == if old(self).focus() == 0 {
                Route::Local { device, event }
            } else {
                Route::Remote {
                    client: (old(self).focus() - 1) as usize,
                    update: Update::Event { id: device, event },
                }
            },
            final(self).streams() == match r {
                Route::Remote { client, update } => old(self).streams().insert(
                    client,
                    old(self).streams()[client].push(update),
                ),
                Route::Local { .. } => old(self).streams(),
            },
            final(self).devices() == old(self).devices(),
            final(self).clients() == old(self).clients(),
            final(self).switch_keys() == old(self).switch_keys(),
    {
        let before = self.focused;
        if let Some(c) = before {
            proof {
                let old_handed = self.handed@;
                let u = Update::Event { id: device, event };
                assert(self.clients().contains(c));
                self.handed = Ghost(old_handed.insert(c, old_handed[c].push(u)));
                assert(self.streams().dom() =~= self.clients());
                lemma_orderly_push(old_handed[c], u);
                assert forall|d: usize, k: usize|
                    self.clients().contains(d) && self.devices().contains_key(k) implies open_in(
                        self.streams()[d],
                        k,
                    ) by {
                    if d == c {
                        lemma_open_in_push(old_handed[c], u, k);
                    }
                }
            }
        }
        let switched = self.hotkey.feed(event);
        if switched {
            self.focused = self.next_focus();
        }
        match before {
            None => Route::Local { device, event },
            Some(c) => Route::Remote { client: c, update: Update::Event { id: device, event } },
        }
    }

    /// Sending to client slot `client` failed: the slot is freed, and focus
    /// falls back to local if it was on that client.
    pub fn remote_failed(&mut self, client: usize)
        requires
            old(self).wf(),
        ensures
            final(self).wf(),
            final(self).clients() == old(self).clients().remove(client),
            final(self).streams() == old(self).streams().remove(client),
            final(self).focus() == if old(self).focus() == client + 1 {
                0
            } else {
                old(self).focus()
            },
            final(self).devices() == old(self).devices(),
            final(self).switch_keys() == old(self).switch_keys(),
            final(self).held() == old(self).held(),
    {
        if client_slab_contains(&self.clients, client) {
            client_slab_remove(&mut self.clients, client);
        }
        assert(self.clients() =~= old(self).clients().remove(client));
        proof {
            let old_handed = self.handed@;
            self.handed = Ghost(old_handed.remove(client));
            assert(self.streams().dom() =~= self.clients());
        }
        if self.focused == Some(client) {
            self.focused = None;
        }
    }

    /// A read from `device` failed. If the device is gone its slot is freed and
    /// every client is told; any other failure ends the server.
    pub fn device_failed(&mut self, device: usize, failure: DeviceFailure) -> (r: Result<Vec<Delivery>, Error>)
        requires
            old(self).wf(),
        ensures
            final(self).wf(),
            match failure {
                DeviceFailure::Disconnected => {
                    &&& final(self).devices() == old(self).devices().remove(device)
                    &&& final(self).streams() == Map::new(
                        |c: usize| old(self).clients().contains(c),
                        |c: usize| old(self).streams()[c].push(Update::DestroyDevice { id: device }),
                    )
                    &&& r matches Ok(ds) && to_each(ds@, old(self).clients())
                        && forall|i: int| 0 <= i < ds@.len() ==> (#[trigger] ds@[i]).update == (Update::DestroyDevice { id: device })
                },
                DeviceFailure::Other(m) => {
                    &&& final(self).devices() == old(self).devices()
                    &&& final(self).streams() == old(self).streams()
                    &&& r matches Err(Error::Input(e)) && e == m
                },
            },
            final(self).clients() == old(self).clients(),
            final(self).focus() == old(self).focus(),
            final(self).switch_keys() == old(self).switch_keys(),
            final(self).held() == old(self).held(),
    {
        match failure {
            DeviceFailure::Disconnected => {
                let deliveries = self.destroy_all(device);
                if device_slab_contains(&self.devices, device) {
                    let _gone = device_slab_remove(&mut self.devices, device);
                }
                assert(self.devices() =~= old(self).devices().remove(device));
                proof {
                    let old_handed = self.handed@;
                    let u = Update::DestroyDevice { id: device };
                    self.handed = Ghost(Map::new(
                        |c: usize| old(self).clients().contains(c),
                        |c: usize| old_handed[c].push(u),
                    ));
                    assert(self.streams().dom() =~= self.clients());
                    assert forall|c: usize| #[trigger] self.clients().contains(c) implies orderly(self.streams()[c]) by {
                        lemma_orderly_push(old_handed[c], u);
                    }
                    assert forall|c: usize, k: usize|
                        self.clients().contains(c) && self.devices().contains_key(k) implies open_in(
                            self.streams()[c],
                            k,
                        ) by {
                        assert(old(self).devices().contains_key(k));
                        lemma_open_in_push(old_handed[c], u, k);
                    }
                }
                Ok(deliveries)
            },
            DeviceFailure::Other(m) => Err(Error::Input(m)),
        }
    }
}

/// A session accepted while device `k` is registered is handed its
/// announcement among the updates it sends first.
pub proof fn lemma_registered_device_in_snapshot(
    s: Seq<Update>,
    devices: Map<usize, DeviceInfo>,
    k: usize,
)
    requires
        is_snapshot(s, devices),
        devices.contains_key(k),
    ensures
        exists|i: int| 0 <= i < s.len() && #[trigger] announces(s[i], k, devices[k]),
{
    let i = choose|i: int| 0 <= i < s.len() && update_id(s[i]) == k;
    assert(announces(s[i], k, devices[k]));
}

/// A device found while session `c` is connected is announced to `c`, with
/// its own description.
pub proof fn lemma_new_device_reaches_client(
    ds: Seq<Delivery>,
    clients: Set<usize>,
    id: usize,
    info: DeviceInfo,
    c: usize,
)
    requires
        to_each(ds, clients),
        forall|i: int| 0 <= i < ds.len() ==> announces(#[trigger] ds[i].update, id, info),
        clients.contains(c),
    ensures
        exists|i: int| 0 <= i < ds.len() && ds[i].client == c && #[trigger] announces(ds[i].update, id, info),
{
    let i = choose|i: int| 0 <= i < ds.len() && ds[i].client == c;
    assert(announces(ds[i].update, id, info));
}

/// Every session sees each device created before any input event of it: in
/// the updates handed out for a connected client, each input event comes
/// after a creation of its device with no destruction in between, and every
/// registered device is open for that client.
pub proof fn lemma_events_follow_creation(r: &Router, c: usize)
    requires
        r.wf(),
        r.clients().contains(c),
    ensures
        orderly(r.streams()[c]),
        forall|k: usize| #[trigger] r.devices().contains_key(k) ==> open_in(r.streams()[c], k),
{
}

/// What an event sent back to its own device leads to: a full queue ends the
/// server; a sent event, or a device that has closed its queue, does not.
pub fn loopback_result(outcome: Loopback) -> (r: Result<(), Error>)
    ensures
        outcome == Loopback::Full <==> (r matches Err(Error::Overflow)),
        outcome != Loopback::Full <==> r is Ok,
{
    match outcome {
        Loopback::Full => Err(Error::Overflow),
        _ => Ok(()),
    }
}

} // verus!
