use vstd::prelude::*;

verus! {

/// One input event read from, or written back to, a device.
#[derive(Clone, Copy, Debug, PartialEq, Eq, Structural)]
pub enum Event {
    /// A key or button changed state.
    Key { code: u16, down: bool },
    /// Relative motion on one axis.
    Rel { axis: u16, value: i32 },
    /// A new position on one absolute axis.
    Abs { axis: u16, value: i32 },
    /// End of a batch of events.
    Sync,
}

/// Calibration of one absolute axis.
#[derive(Clone, Copy, Debug, PartialEq, Eq, Structural)]
pub struct AbsInfo {
    pub axis: u16,
    pub min: i32,
    pub max: i32,
    pub fuzz: i32,
    pub flat: i32,
    pub resolution: i32,
}

/// What a client needs to know to mirror one local device.
#[derive(Debug)]
pub struct DeviceInfo {
    pub name: String,
    pub vendor: u16,
    pub product: u16,
    pub version: u16,
    pub rel: Vec<u16>,
    pub abs: Vec<AbsInfo>,
    pub keys: Vec<u16>,
}

/// Two device descriptions say the same thing.
pub open spec fn same_device(a: DeviceInfo, b: DeviceInfo) -> bool {
    &&& a.name@ == b.name@
    &&& a.vendor == b.vendor
    &&& a.product == b.product
    &&& a.version == b.version
    &&& a.rel@ == b.rel@
    &&& a.abs@ == b.abs@
    &&& a.keys@ == b.keys@
}

/// No code appears twice in `s`.
pub open spec fn distinct_codes(s: Seq<u16>) -> bool {
    forall|i: int, j: int| 0 <= i < j < s.len() ==> s[i] != s[j]
}

/// No axis is calibrated twice in `s`.
pub open spec fn distinct_axes(s: Seq<AbsInfo>) -> bool {
    forall|i: int, j: int| 0 <= i < j < s.len() ==> s[i].axis != s[j].axis
}

/// A device description names each relative axis, absolute axis and key at
/// most once: they are sets, and a map from axis to calibration.
pub open spec fn valid_device(d: DeviceInfo) -> bool {
    &&& distinct_codes(d.rel@)
    &&& distinct_codes(d.keys@)
    &&& distinct_axes(d.abs@)
}

fn codes_distinct(v: &Vec<u16>) -> (r: bool)
    ensures
        r == distinct_codes(v@),
{
    let mut i: usize = 0;
    while i < v.len()
        invariant
            i <= v@.len(),
            forall|a: int, b: int| 0 <= a < b < v@.len() && a < i ==> v@[a] != v@[b],
        decreases v@.len() - i,
    {
        let mut j: usize = i + 1;
        while j < v.len()
            invariant
                i < v@.len(),
                i + 1 <= j <= v@.len(),
                forall|a: int, b: int| 0 <= a < b < v@.len() && a < i ==> v@[a] != v@[b],
                forall|b: int| i < b < j ==> v@[i as int] != v@[b],
            decreases v@.len() - j,
        {
            if v[i] == v[j] {
                return false;
            }
            j = j + 1;
        }
        i = i + 1;
    }
    true
}

fn axes_distinct(v: &Vec<AbsInfo>) -> (r: bool)
    ensures
        r == distinct_axes(v@),
{
    let mut i: usize = 0;
    while i < v.len()
        invariant
            i <= v@.len(),
            forall|a: int, b: int| 0 <= a < b < v@.len() && a < i ==> v@[a].axis != v@[b].axis,
        decreases v@.len() - i,
    {
        let mut j: usize = i + 1;
        while j < v.len()
            invariant
                i < v@.len(),
                i + 1 <= j <= v@.len(),
                forall|a: int, b: int| 0 <= a < b < v@.len() && a < i ==> v@[a].axis != v@[b].axis,
                forall|b: int| i < b < j ==> v@[i as int].axis != v@[b].axis,
            decreases v@.len() - j,
        {
            if v[i].axis == v[j].axis {
                return false;
            }
            j = j + 1;
        }
        i = i + 1;
    }
    true
}

fn copy_codes(v: &Vec<u16>) -> (r: Vec<u16>)
    ensures
        r@ == v@,
{
    let mut r: Vec<u16> = Vec::new();
    let mut i: usize = 0;
    while i < v.len()
        invariant
            i <= v@.len(),
            r@ == v@.subrange(0, i as int),
        decreases v@.len() - i,
    {
        r.push(v[i]);
        i = i + 1;
    }
    assert(r@ =~= v@);
    r
}

fn copy_axes(v: &Vec<AbsInfo>) -> (r: Vec<AbsInfo>)
    ensures
        r@ == v@,
{
    let mut r: Vec<AbsInfo> = Vec::new();
    let mut i: usize = 0;
    while i < v.len()
        invariant
            i <= v@.len(),
            r@ == v@.subrange(0, i as int),
        decreases v@.len() - i,
    {
        r.push(v[i]);
        i = i + 1;
    }
    assert(r@ =~= v@);
    r
}

impl DeviceInfo {
    /// Whether no axis or key is named twice.
    pub fn is_valid(&self) -> (r: bool)
        ensures
            r == valid_device(*self),
    {
        codes_distinct(&self.rel) && codes_distinct(&self.keys) && axes_distinct(&self.abs)
    }

    /// An independent copy of this description.
    pub fn duplicate(&self) -> (r: DeviceInfo)
        ensures
            same_device(r, *self),
    {
        DeviceInfo {
            name: self.name.clone(),
            vendor: self.vendor,
            product: self.product,
            version: self.version,
            rel: copy_codes(&self.rel),
            abs: copy_axes(&self.abs),
            keys: copy_codes(&self.keys),
        }
    }
}

/// A message from the router to one client session.
#[derive(Debug)]
pub enum Update {
    /// A device appeared; `id` names it in later updates.
    CreateDevice { id: usize, info: DeviceInfo },
    /// The device with this id is gone.
    DestroyDevice { id: usize },
    /// An input event produced by the device with this id.
    Event { id: usize, event: Event },
}

/// `u` announces the device `id`, described as `d`.
pub open spec fn announces(u: Update, id: usize, d: DeviceInfo) -> bool {
    match u {
        Update::CreateDevice { id: i, info } => i == id && same_device(info, d),
        _ => false,
    }
}

/// Device `id` is open in the stream `s`: its last creation or destruction in
/// `s` is a creation.
pub open spec fn open_in(s: Seq<Update>, id: usize) -> bool
    decreases s.len(),
{
    if s.len() == 0 {
        false
    } else {
        match s.last() {
            Update::CreateDevice { id: i, .. } => i == id || open_in(s.drop_last(), id),
            Update::DestroyDevice { id: i } => i != id && open_in(s.drop_last(), id),
            Update::Event { .. } => open_in(s.drop_last(), id),
        }
    }
}

/// Every input event in `s` comes after a creation of its device, with no
/// destruction of that device in between.
pub open spec fn orderly(s: Seq<Update>) -> bool {
    forall|i: int|
        0 <= i < s.len() ==> match #[trigger] s[i] {
            Update::Event { id, .. } => open_in(s.take(i), id),
            _ => true,
        }
}

/// An update about another device leaves a device as open as it was.
pub proof fn lemma_open_in_push(s: Seq<Update>, u: Update, id: usize)
    requires
        match u {
            Update::CreateDevice { id: i, .. } => i != id,
            Update::DestroyDevice { id: i } => i != id,
            Update::Event { .. } => true,
        },
    ensures
        open_in(s.push(u), id) == open_in(s, id),
{
    assert(s.push(u).drop_last() =~= s);
}

/// Appending an update keeps a stream orderly, provided an input event comes
/// only for an open device.
pub proof fn lemma_orderly_push(s: Seq<Update>, u: Update)
    requires
        orderly(s),
        u matches Update::Event { id, .. } ==> open_in(s, id),
    ensures
        orderly(s.push(u)),
{
    let t = s.push(u);
    assert forall|i: int| 0 <= i < t.len() implies match #[trigger] t[i] {
        Update::Event { id, .. } => open_in(t.take(i), id),
        _ => true,
    } by {
        if i < s.len() {
            assert(t.take(i) =~= s.take(i));
            assert(t[i] == s[i]);
        } else {
            assert(t.take(i) =~= s);
        }
    }
}

/// A stream of creations only is orderly, and opens every device it creates.
pub proof fn lemma_creations_open(s: Seq<Update>, id: usize, at: int)
    requires
        forall|i: int| 0 <= i < s.len() ==> (#[trigger] s[i] matches Update::CreateDevice { .. }),
        0 <= at < s.len(),
        s[at] matches Update::CreateDevice { id: i, .. } && i == id,
    ensures
        open_in(s, id),
        orderly(s),
    decreases s.len(),
{
    assert forall|i: int| 0 <= i < s.len() implies match #[trigger] s[i] {
        Update::Event { id, .. } => open_in(s.take(i), id),
        _ => true,
    } by {
        assert(s[i] matches Update::CreateDevice { .. });
    }
    if at < s.len() - 1 {
        let t = s.drop_last();
        assert(t[at] == s[at]);
        assert forall|i: int| 0 <= i < t.len() implies (#[trigger] t[i] matches Update::CreateDevice { .. }) by {
            assert(t[i] == s[i]);
        }
        lemma_creations_open(t, id, at);
        assert(s[s.len() - 1] matches Update::CreateDevice { .. });
    }
}

} // verus!
