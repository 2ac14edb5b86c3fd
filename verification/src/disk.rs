//! The disk concurrency arbiter.
//!
//! Work on the file system is bounded per volume. A path belongs to the
//! mounted volume with the longest mount point that is a prefix of the path;
//! a path under no mount point belongs to the disk `unknown`. Each disk has
//! a fixed number of permits, chosen by the kind of the volume when the disk
//! is first seen and never changed after. `DiskPermits` keeps the count of
//! permits handed out and never lets it pass that number.

use crate::assoc::{
    as_map, distinct_keys, first_match, lemma_first_match_at, lemma_first_match_none,
    lemma_first_match_push, lemma_first_match_update,
};
use crate::path::{under, TreePath};
use crate::text::same_text;
use vstd::prelude::*;
use vstd::string::StringExecFns;

verus! {

/// What kind of device a volume lives on.
#[derive(Debug, Clone, Copy, PartialEq, Eq, Structural)]
pub enum DiskKind {
    /// A rotational disk.
    Hdd,
    /// A solid-state disk.
    Ssd,
    /// Anything else.
    Unknown,
}

/// A mounted volume.
#[derive(Debug)]
pub struct Volume {
    /// The mount point, component by component.
    pub mount_point: TreePath,
    /// The mount point as text: the disk's identity.
    pub label: String,
    /// The kind of the device.
    pub kind: DiskKind,
}

/// The content of a `Volume`.
pub struct VolumeView {
    pub mount_point: Seq<Seq<char>>,
    pub label: Seq<char>,
    pub kind: DiskKind,
}

impl View for Volume {
    type V = VolumeView;

    open spec fn view(&self) -> VolumeView {
        VolumeView { mount_point: self.mount_point@, label: self.label@, kind: self.kind }
    }
}

/// The volumes held by a list, as plain values.
pub open spec fn volumes_of(volumes: Seq<Volume>) -> Seq<VolumeView> {
    Seq::new(volumes.len(), |i: int| volumes[i]@)
}

/// The volumes mounted now. They are read from the system by
/// `sysinfo::Disks::new_with_refreshed_list`; each volume's
/// `Disk::mount_point` is taken apart into its components and `Disk::kind`
/// is mapped variant by variant. Nothing is promised of the list.
#[verifier::external_body]
pub(crate) fn mounted_volumes() -> Vec<Volume> {
    let disks = sysinfo::Disks::new_with_refreshed_list();
    disks.list().iter().map(|d| {
        let at = d.mount_point();
        let parts = at.components().map(|c| c.as_os_str().to_string_lossy().into_owned());
        Volume {
            mount_point: TreePath { parts: parts.collect() },
            label: at.to_string_lossy().into_owned(),
            kind: match d.kind() {
                sysinfo::DiskKind::HDD => DiskKind::Hdd,
                sysinfo::DiskKind::SSD => DiskKind::Ssd,
                sysinfo::DiskKind::Unknown(_) => DiskKind::Unknown,
            },
        }
    }).collect()
}

/// The number of logical processors available, from `num_cpus::get`, which
/// documents that it returns at least 1.
#[verifier::external_body]
pub(crate) fn cpu_count() -> (n: usize)
    ensures
        n >= 1,
{
    num_cpus::get()
}

/// The volume at `i` holds `path`.
pub open spec fn holds(volumes: Seq<VolumeView>, i: int, path: Seq<Seq<char>>) -> bool {
    0 <= i < volumes.len() && under(path, volumes[i].mount_point)
}

/// The volume at `i` is the one `path` belongs to: it holds the path, no
/// volume that holds the path has a longer mount point, and of the volumes
/// with a mount point as long it is the last.
pub open spec fn owns(volumes: Seq<VolumeView>, i: int, path: Seq<Seq<char>>) -> bool {
    &&& holds(volumes, i, path)
    &&& forall|j: int| #[trigger]
        holds(volumes, j, path) ==> volumes[j].mount_point.len() <= volumes[i].mount_point.len()
    &&& forall|j: int|
        i < j && #[trigger] holds(volumes, j, path) ==> volumes[j].mount_point.len()
            < volumes[i].mount_point.len()
}

/// The position of the volume `path` belongs to, or -1 where no volume holds it.
pub open spec fn owner_of(volumes: Seq<VolumeView>, path: Seq<Seq<char>>) -> int
    decreases volumes.len(),
{
    if volumes.len() == 0 {
        -1
    } else {
        let before = owner_of(volumes.drop_last(), path);
        let last = volumes.len() - 1;
        if under(path, volumes[last].mount_point) && (before < 0
            || volumes[before].mount_point.len() <= volumes[last].mount_point.len()) {
            last
        } else {
            before
        }
    }
}

/// `owner_of` finds the volume that owns the path, and -1 exactly where no
/// volume holds it.
pub proof fn lemma_owner_of(volumes: Seq<VolumeView>, path: Seq<Seq<char>>)
    ensures
        -1 <= owner_of(volumes, path) < volumes.len(),
        owner_of(volumes, path) >= 0 ==> owns(volumes, owner_of(volumes, path), path),
        owner_of(volumes, path) < 0 ==> forall|j: int| !holds(volumes, j, path),
    decreases volumes.len(),
{
    if volumes.len() > 0 {
        let front = volumes.drop_last();
        let last = volumes.len() - 1;
        lemma_owner_of(front, path);
        let before = owner_of(front, path);
        let r = owner_of(volumes, path);
        assert forall|j: int| holds(volumes, j, path) && j < last implies holds(
            front,
            j,
            path,
        ) by {
            assert(front[j] == volumes[j]);
        }
        if before >= 0 {
            assert(front[before] == volumes[before]);
            assert(holds(front, before, path));
        }
        if r >= 0 {
            assert forall|j: int| #[trigger] holds(volumes, j, path) implies volumes[j].mount_point.len()
                <= volumes[r].mount_point.len() by {
                if j < last {
                    assert(holds(front, j, path));
                    assert(front[j] == volumes[j]);
                }
            }
            assert forall|j: int| r < j && #[trigger] holds(volumes, j, path) implies volumes[j].mount_point.len()
                < volumes[r].mount_point.len() by {
                if j < last {
                    assert(holds(front, j, path));
                    assert(front[j] == volumes[j]);
                }
            }
        } else {
            assert forall|j: int| !holds(volumes, j, path) by {
                if holds(volumes, j, path) && j < last {
                    assert(holds(front, j, path));
                }
            }
        }
    }
}

/// The identity of the disk `path` belongs to: the label of the volume that
/// owns it, or `unknown`.
pub open spec fn disk_key_of(volumes: Seq<VolumeView>, path: Seq<Seq<char>>) -> Seq<char> {
    if owner_of(volumes, path) >= 0 {
        volumes[owner_of(volumes, path)].label
    } else {
        "unknown"@
    }
}

/// The number of permits of a disk: the processor count for a solid-state
/// disk, 2 for a rotational disk or one of another kind, and the processor
/// count but at most 4 where the kind is not known at all.
pub open spec fn permits_for(kind: Option<DiskKind>, cpus: nat) -> nat {
    match kind {
        Some(DiskKind::Ssd) => cpus,
        Some(DiskKind::Hdd) => 2,
        Some(DiskKind::Unknown) => 2,
        None => if cpus < 4 {
            cpus
        } else {
            4
        },
    }
}

/// The kind of the volume `path` belongs to, if any.
pub open spec fn disk_kind_of(volumes: Seq<VolumeView>, path: Seq<Seq<char>>) -> Option<DiskKind> {
    if owner_of(volumes, path) >= 0 {
        Some(volumes[owner_of(volumes, path)].kind)
    } else {
        None
    }
}

/// Finds the volume `path` belongs to.
pub fn find_volume(path: &TreePath, volumes: &Vec<Volume>) -> (r: Option<usize>)
    ensures
        match r {
            Some(i) => owner_of(volumes_of(volumes@), path@) == i && i < volumes@.len(),
            None => owner_of(volumes_of(volumes@), path@) == -1,
        },
{
    let ghost all = volumes_of(volumes@);
    let mut best: Option<usize> = None;
    let mut i: usize = 0;
    while i < volumes.len()
        invariant
            i <= volumes.len(),
            all == volumes_of(volumes@),
            match best {
                Some(b) => owner_of(all.take(i as int), path@) == b && b < i,
                None => owner_of(all.take(i as int), path@) == -1,
            },
        decreases volumes.len() - i,
    {
        proof {
            assert(all.take(i as int + 1).drop_last() =~= all.take(i as int));
            assert(all.take(i as int + 1)[i as int] == volumes@[i as int]@);
            match best {
                Some(b) => {
                    assert(all.take(i as int + 1)[b as int] == volumes@[b as int]@);
                },
                None => {},
            }
        }
        if path.starts_with(&volumes[i].mount_point) {
            let longer = match best {
                Some(b) => volumes[b].mount_point.len() <= volumes[i].mount_point.len(),
                None => true,
            };
            if longer {
                best = Some(i);
            }
        }
        i += 1;
    }
    proof {
        assert(all.take(volumes.len() as int) =~= all);
    }
    best
}

/// The identity of the disk `path` belongs to, among `volumes`.
pub fn disk_key_among(path: &TreePath, volumes: &Vec<Volume>) -> (r: String)
    ensures
        r@ == disk_key_of(volumes_of(volumes@), path@),
{
    match find_volume(path, volumes) {
        Some(i) => volumes[i].label.clone(),
        None => String::from_str("unknown"),
    }
}

/// The number of permits of a disk of the given kind on a machine with `cpus` processors.
pub fn permits_for_kind(kind: Option<DiskKind>, cpus: usize) -> (r: usize)
    ensures
        r == permits_for(kind, cpus as nat),
{
    match kind {
        Some(DiskKind::Ssd) => cpus,
        Some(DiskKind::Hdd) => 2,
        Some(DiskKind::Unknown) => 2,
        None => if cpus < 4 {
            cpus
        } else {
            4
        },
    }
}

/// The number of permits of the disk `path` belongs to, among `volumes`.
pub fn max_concurrent_among(path: &TreePath, volumes: &Vec<Volume>, cpus: usize) -> (r: usize)
    ensures
        r == permits_for(disk_kind_of(volumes_of(volumes@), path@), cpus as nat),
{
    let kind = match find_volume(path, volumes) {
        Some(i) => Some(volumes[i].kind),
        None => None,
    };
    permits_for_kind(kind, cpus)
}

/// The identity of the disk `path` belongs to, among the volumes mounted now.
pub fn get_disk_key(path: &TreePath) -> (r: String)
    ensures
        exists|volumes: Seq<VolumeView>| r@ == disk_key_of(volumes, path@),
{
    let volumes = mounted_volumes();
    disk_key_among(path, &volumes)
}

/// The number of permits of the disk `path` belongs to, among the volumes
/// mounted now and with the processors available now. It is never 0.
pub fn compute_max_concurrent_for_disk(path: &TreePath) -> (r: usize)
    ensures
        r >= 1,
        exists|volumes: Seq<VolumeView>, cpus: nat|
            cpus >= 1 && r == permits_for(disk_kind_of(volumes, path@), cpus),
{
    let volumes = mounted_volumes();
    let cpus = cpu_count();
    let r = max_concurrent_among(path, &volumes, cpus);
    proof {
        assert(cpus as nat >= 1 && r == permits_for(
            disk_kind_of(volumes_of(volumes@), path@),
            cpus as nat,
        ));
    }
    r
}

/// The entry at `i` is the first with its text.
pub open spec fn is_first_occurrence(keys: Seq<Seq<char>>, i: int) -> bool {
    0 <= i < keys.len() && forall|j: int| 0 <= j < i ==> keys[j] != keys[i]
}

/// The positions at which each disk identity of `keys` occurs first, in
/// rising order: one position per disk, so that a caller who needs several
/// paths asks for one permit per disk and not one per path.
pub fn first_of_each_disk(keys: &Vec<String>) -> (r: Vec<usize>)
    ensures
        forall|k: int| 0 <= k < r@.len() ==> is_first_occurrence(
            crate::path::names_of(keys@),
            #[trigger] r@[k] as int,
        ),
        forall|i: int|
            is_first_occurrence(crate::path::names_of(keys@), i) ==> r@.contains(i as usize),
        forall|a: int, b: int| 0 <= a < b < r@.len() ==> r@[a] < r@[b],
{
    let ghost all = crate::path::names_of(keys@);
    let mut r: Vec<usize> = Vec::new();
    let mut i: usize = 0;
    while i < keys.len()
        invariant
            i <= keys.len(),
            all == crate::path::names_of(keys@),
            forall|k: int| 0 <= k < r@.len() ==> is_first_occurrence(all, #[trigger] r@[k] as int),
            forall|k: int| 0 <= k < r@.len() ==> r@[k] < i,
            forall|p: int| 0 <= p < i && is_first_occurrence(all, p) ==> r@.contains(p as usize),
            forall|a: int, b: int| 0 <= a < b < r@.len() ==> r@[a] < r@[b],
        decreases keys.len() - i,
    {
        let mut seen = false;
        let mut j: usize = 0;
        while j < i
            invariant
                j <= i,
                i < keys.len(),
                all == crate::path::names_of(keys@),
                seen == exists|q: int| 0 <= q < j && all[q] == all[i as int],
            decreases i - j,
        {
            if same_text(keys[j].as_str(), keys[i].as_str()) {
                proof {
                    assert(all[j as int] == all[i as int]);
                }
                seen = true;
            }
            j += 1;
        }
        let ghost before = r@;
        if !seen {
            r.push(i);
            proof {
                assert(is_first_occurrence(all, i as int));
                assert(r@[before.len() as int] == i);
                assert forall|p: int| 0 <= p < i + 1 && is_first_occurrence(
                    all,
                    p,
                ) implies r@.contains(p as usize) by {
                    if p < i {
                        let k = choose|k: int| 0 <= k < before.len() && before[k] == p as usize;
                        assert(r@[k] == p as usize);
                    }
                }
            }
        } else {
            proof {
                assert(!is_first_occurrence(all, i as int));
            }
        }
        i += 1;
    }
    r
}

/// The permits of one disk.
#[derive(Debug)]
pub struct PermitSlot {
    /// The disk's identity.
    pub key: String,
    /// How many permits the disk has.
    pub capacity: usize,
    /// How many of them are handed out.
    pub held: usize,
}

/// The counts of one disk, as plain values.
pub struct SlotView {
    pub capacity: nat,
    pub held: nat,
}

/// The registry of the permits of all disks seen so far. Its slots are its
/// own: a registry is made empty and changed only by asking for permits and
/// giving them back, and so is always well-formed.
#[derive(Debug)]
pub struct DiskPermits {
    /// One slot per disk, in the order in which the disks were first seen.
    slots: Vec<PermitSlot>,
}

/// No disk has more permits handed out than it has.
pub open spec fn permits_bounded(m: Map<Seq<char>, SlotView>) -> bool {
    forall|k: Seq<char>| m.contains_key(k) ==> (#[trigger] m[k]).held <= m[k].capacity
}

/// The slot of `key` as it stands when a permit is asked for: the slot the
/// registry has, or a fresh one with `capacity_if_new` permits.
pub open spec fn slot_for(
    m: Map<Seq<char>, SlotView>,
    key: Seq<char>,
    capacity_if_new: nat,
) -> SlotView {
    if m.contains_key(key) {
        m[key]
    } else {
        SlotView { capacity: capacity_if_new, held: 0 }
    }
}

/// Asking for a permit of `key`: it is granted where the disk has one left,
/// and then counted as handed out. A disk seen for the first time is entered
/// with `capacity_if_new` permits; the number of a disk seen before stays.
pub open spec fn permits_acquire(
    m: Map<Seq<char>, SlotView>,
    key: Seq<char>,
    capacity_if_new: nat,
) -> (
    Map<Seq<char>, SlotView>,
    bool,
) {
    let slot = slot_for(m, key, capacity_if_new);
    if slot.held < slot.capacity {
        (m.insert(key, SlotView { held: slot.held + 1, ..slot }), true)
    } else {
        (m.insert(key, slot), false)
    }
}

/// Giving back a permit of `key`: one permit less is handed out, where any was.
pub open spec fn permits_release(m: Map<Seq<char>, SlotView>, key: Seq<char>) -> Map<
    Seq<char>,
    SlotView,
> {
    if m.contains_key(key) && m[key].held > 0 {
        m.insert(key, SlotView { held: (m[key].held - 1) as nat, ..m[key] })
    } else {
        m
    }
}

/// The permit bound. Whatever is asked of a registry in which no disk has
/// more permits out than it has, the same holds afterwards; a permit is
/// granted only where the disk had one left; and the number of permits of a
/// disk seen before never changes.
pub proof fn law_permits_never_exceed_capacity(
    m: Map<Seq<char>, SlotView>,
    key: Seq<char>,
    capacity_if_new: nat,
)
    requires
        permits_bounded(m),
    ensures
        permits_bounded(permits_acquire(m, key, capacity_if_new).0),
        permits_bounded(permits_release(m, key)),
        permits_acquire(m, key, capacity_if_new).1 ==> slot_for(m, key, capacity_if_new).held
            < slot_for(m, key, capacity_if_new).capacity,
        forall|k: Seq<char>|
            m.contains_key(k) ==> permits_acquire(m, key, capacity_if_new).0[k].capacity
                == m[k].capacity && permits_release(m, key)[k].capacity == m[k].capacity,
{
    let after = permits_acquire(m, key, capacity_if_new).0;
    assert forall|k: Seq<char>| after.contains_key(k) implies (#[trigger] after[k]).held
        <= after[k].capacity by {
        if k != key {
            assert(m.contains_key(k));
            assert(after[k] == m[k]);
        }
    }
    let back = permits_release(m, key);
    assert forall|k: Seq<char>| back.contains_key(k) implies (#[trigger] back[k]).held
        <= back[k].capacity by {
        if k != key {
            assert(m.contains_key(k));
            assert(back[k] == m[k]);
        } else {
            assert(m.contains_key(k));
        }
    }
}

/// A disk with `capacity` permits of which none is out grants exactly
/// `capacity` of any number of requests made without a release between them.
pub proof fn law_grants_stop_at_capacity(
    m: Map<Seq<char>, SlotView>,
    key: Seq<char>,
    capacity: nat,
    requests: nat,
)
    requires
        !m.contains_key(key),
    ensures
        grants(m, key, capacity, requests) == if requests < capacity {
            requests
        } else {
            capacity
        },
        after_requests(m, key, capacity, requests).contains_key(key) || requests == 0,
        requests > 0 ==> after_requests(m, key, capacity, requests)[key] == (SlotView {
            capacity,
            held: grants(m, key, capacity, requests),
        }),
    decreases requests,
{
    if requests > 0 {
        law_grants_stop_at_capacity(m, key, capacity, (requests - 1) as nat);
    }
}

/// The registry after `requests` requests for `key` in a row.
pub open spec fn after_requests(
    m: Map<Seq<char>, SlotView>,
    key: Seq<char>,
    capacity: nat,
    requests: nat,
) -> Map<Seq<char>, SlotView>
    decreases requests,
{
    if requests == 0 {
        m
    } else {
        permits_acquire(after_requests(m, key, capacity, (requests - 1) as nat), key, capacity).0
    }
}

/// How many of `requests` requests for `key` in a row are granted.
pub open spec fn grants(
    m: Map<Seq<char>, SlotView>,
    key: Seq<char>,
    capacity: nat,
    requests: nat,
) -> nat
    decreases requests,
{
    if requests == 0 {
        0
    } else {
        let before = after_requests(m, key, capacity, (requests - 1) as nat);
        grants(m, key, capacity, (requests - 1) as nat) + if permits_acquire(
            before,
            key,
            capacity,
        ).1 {
            1nat
        } else {
            0nat
        }
    }
}

impl View for DiskPermits {
    type V = Map<Seq<char>, SlotView>;

    open spec fn view(&self) -> Map<Seq<char>, SlotView> {
        as_map(self.entries())
    }
}

impl DiskPermits {
    /// The slots as plain values, in order.
    pub closed spec fn entries(&self) -> Seq<(Seq<char>, SlotView)> {
        Seq::new(
            self.slots@.len(),
            |i: int|
                (
                    self.slots@[i].key@,
                    SlotView {
                        capacity: self.slots@[i].capacity as nat,
                        held: self.slots@[i].held as nat,
                    },
                ),
        )
    }

    /// Each disk has one slot, and no slot has more permits out than it has.
    pub closed spec fn wf(&self) -> bool {
        &&& distinct_keys(self.entries())
        &&& forall|i: int|
            0 <= i < self.slots@.len() ==> (#[trigger] self.slots@[i]).held
                <= self.slots@[i].capacity
    }

    /// A registry that has seen no disk.
    pub fn new() -> (r: DiskPermits)
        ensures
            r@ == Map::<Seq<char>, SlotView>::empty(),
            r.wf(),
            permits_bounded(r@),
    {
        let r = DiskPermits { slots: Vec::new() };
        proof {
            assert(r.entries() =~= Seq::empty());
            assert(r@ =~= Map::<Seq<char>, SlotView>::empty());
        }
        r
    }

    /// The number of disks seen so far.
    pub fn disks(&self) -> (n: usize)
        ensures
            n == self.entries().len(),
    {
        self.slots.len()
    }

    /// In a well-formed registry no disk has more permits out than it has.
    pub proof fn lemma_wf_bounded(&self)
        requires
            self.wf(),
        ensures
            permits_bounded(self@),
    {
        assert forall|k: Seq<char>| self@.contains_key(k) implies (#[trigger] self@[k]).held
            <= self@[k].capacity by {
            self.lemma_found(k);
        }
    }

    proof fn lemma_found(&self, k: Seq<char>)
        requires
            first_match(self.entries(), k) is Some,
        ensures
            exists|i: int|
                0 <= i < self.slots@.len() && first_match(self.entries(), k) == Some(
                    #[trigger] self.entries()[i].1,
                ),
    {
        lemma_match_is_entry(self.entries(), k);
    }

    /// The position of the slot of `key`.
    fn position(&self, key: &str) -> (r: Option<usize>)
        ensures
            match r {
                Some(i) => i < self.slots@.len() && self.slots@[i as int].key@ == key@
                    && first_match(self.entries(), key@) == Some(self.entries()[i as int].1)
                    && forall|j: int| 0 <= j < i ==> self.entries()[j].0 != key@,
                None => first_match(self.entries(), key@) is None,
            },
    {
        let mut i: usize = 0;
        while i < self.slots.len()
            invariant
                i <= self.slots.len(),
                forall|j: int| 0 <= j < i ==> self.entries()[j].0 != key@,
            decreases self.slots.len() - i,
        {
            if same_text(self.slots[i].key.as_str(), key) {
                proof {
                    assert(self.entries()[i as int].0 == key@);
                    lemma_first_match_at(self.entries(), key@, i as int);
                }
                return Some(i);
            }
            proof {
                assert(self.entries()[i as int].0 == self.slots@[i as int].key@);
            }
            i += 1;
        }
        proof {
            lemma_first_match_none(self.entries(), key@);
        }
        None
    }

    /// How many permits the disk `key` has, if it was seen before.
    pub fn capacity_of(&self, key: &str) -> (r: Option<usize>)
        ensures
            match r {
                Some(c) => self@.contains_key(key@) && self@[key@].capacity == c,
                None => !self@.contains_key(key@),
            },
    {
        match self.position(key) {
            Some(i) => Some(self.slots[i].capacity),
            None => None,
        }
    }

    /// How many permits of the disk `key` are handed out.
    pub fn held_of(&self, key: &str) -> (r: usize)
        ensures
            r == if self@.contains_key(key@) {
                self@[key@].held
            } else {
                0
            },
    {
        match self.position(key) {
            Some(i) => self.slots[i].held,
            None => 0,
        }
    }

    /// Asks for a permit of the disk `key`. A disk seen for the first time
    /// is entered with `capacity_if_new` permits.
    pub fn try_acquire(&mut self, key: &str, capacity_if_new: usize) -> (granted: bool)
        requires
            old(self).wf(),
        ensures
            (final(self)@, granted) == permits_acquire(old(self)@, key@, capacity_if_new as nat),
            final(self).wf(),
            permits_bounded(final(self)@),
    {
        proof {
            self.lemma_wf_bounded();
            law_permits_never_exceed_capacity(self@, key@, capacity_if_new as nat);
        }
        let ghost before = self.entries();
        match self.position(key) {
            Some(i) => {
                let capacity = self.slots[i].capacity;
                let held = self.slots[i].held;
                let granted = held < capacity;
                let now = if granted {
                    held + 1
                } else {
                    held
                };
                let slot = PermitSlot { key: String::from_str(key), capacity, held: now };
                self.slots.set(i, slot);
                proof {
                    let value = SlotView { capacity: capacity as nat, held: now as nat };
                    assert(self.entries() =~= before.update(i as int, (key@, value)));
                    assert forall|q: Seq<char>|
                        first_match(self.entries(), q) == if q == key@ {
                            Some(value)
                        } else {
                            first_match(before, q)
                        } by {
                        lemma_first_match_update(before, i as int, key@, value, q);
                    }
                    assert(self@ =~= permits_acquire(old(self)@, key@, capacity_if_new as nat).0);
                }
                granted
            },
            None => {
                let granted = 0 < capacity_if_new;
                let now: usize = if granted {
                    1
                } else {
                    0
                };
                let slot = PermitSlot {
                    key: String::from_str(key),
                    capacity: capacity_if_new,
                    held: now,
                };
                self.slots.push(slot);
                proof {
                    let value = SlotView { capacity: capacity_if_new as nat, held: now as nat };
                    assert(self.entries() =~= before.push((key@, value)));
                    assert forall|q: Seq<char>|
                        first_match(self.entries(), q) == if q == key@ {
                            Some(value)
                        } else {
                            first_match(before, q)
                        } by {
                        lemma_first_match_push(before, key@, value, q);
                    }
                    assert(self@ =~= permits_acquire(old(self)@, key@, capacity_if_new as nat).0);
                    assert forall|a: int, b: int|
                        0 <= a < b < self.entries().len() implies self.entries()[a].0
                        != self.entries()[b].0 by {
                        if b == before.len() {
                            lemma_key_absent(before, key@, a);
                        } else {
                            assert(self.entries()[a] == before[a]);
                            assert(self.entries()[b] == before[b]);
                        }
                    }
                }
                granted
            },
        }
    }

    /// Gives back a permit of the disk `key`.
    pub fn release(&mut self, key: &str)
        requires
            old(self).wf(),
        ensures
            final(self)@ == permits_release(old(self)@, key@),
            final(self).wf(),
            permits_bounded(final(self)@),
    {
        proof {
            self.lemma_wf_bounded();
            law_permits_never_exceed_capacity(self@, key@, 0);
        }
        let ghost before = self.entries();
        match self.position(key) {
            Some(i) => {
                let capacity = self.slots[i].capacity;
                let held = self.slots[i].held;
                if held > 0 {
                    let slot = PermitSlot { key: String::from_str(key), capacity, held: held - 1 };
                    self.slots.set(i, slot);
                    proof {
                        let value = SlotView { capacity: capacity as nat, held: (held - 1) as nat };
                        assert(self.entries() =~= before.update(i as int, (key@, value)));
                        assert forall|q: Seq<char>|
                            first_match(self.entries(), q) == if q == key@ {
                                Some(value)
                            } else {
                                first_match(before, q)
                            } by {
                            lemma_first_match_update(before, i as int, key@, value, q);
                        }
                        assert(self@ =~= permits_release(old(self)@, key@));
                    }
                }
            },
            None => {},
        }
    }
}

/// What a lookup finds is the value of some entry.
proof fn lemma_match_is_entry<V>(entries: Seq<(Seq<char>, V)>, key: Seq<char>)
    requires
        first_match(entries, key) is Some,
    ensures
        exists|i: int|
            0 <= i < entries.len() && first_match(entries, key) == Some(#[trigger] entries[i].1),
    decreases entries.len(),
{
    if entries[0].0 == key {
        assert(first_match(entries, key) == Some(entries[0].1));
    } else {
        lemma_match_is_entry(entries.drop_first(), key);
        let i = choose|i: int|
            0 <= i < entries.drop_first().len() && first_match(entries.drop_first(), key) == Some(
                #[trigger] entries.drop_first()[i].1,
            );
        assert(entries.drop_first()[i] == entries[i + 1]);
        assert(first_match(entries, key) == Some(entries[i + 1].1));
    }
}

/// A key that a lookup does not find is the key of no entry.
proof fn lemma_key_absent<V>(entries: Seq<(Seq<char>, V)>, key: Seq<char>, i: int)
    requires
        first_match(entries, key) is None,
        0 <= i < entries.len(),
    ensures
        entries[i].0 != key,
    decreases entries.len(),
{
    if i > 0 {
        assert(entries.drop_first()[i - 1] == entries[i]);
        lemma_key_absent(entries.drop_first(), key, i - 1);
    }
}

} // verus!
