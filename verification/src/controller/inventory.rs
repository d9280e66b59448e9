//! Inventory reconciliation: the slots a snapshot declares, the state a
//! returning slot is restored to from the deployments that hold it, which
//! running deployments the snapshot no longer shows, and how the stored
//! container rows are cut to their column widths.

use crate::controller::lifecycle::DeploymentState;
use crate::controller::error::AppError;
use crate::encoding::{json_string_array, parse_string_array, string_seq};
use crate::seqs::{lemma_filter_prefix, lemma_filter_step};
use crate::shared::{truncate, truncated, GpuInfo, MigDeviceInfo, SlotState, SlotType};
use crate::text::{concat3, decimal_string, decimal_text, chars_of, slice_chars};
use vstd::prelude::*;

verus! {

use DeploymentState as D;

/// A slot the snapshot declares, to be upserted under the GPU at position
/// `gpu` of the snapshot.
pub struct SlotUpsert {
    pub gpu: usize,
    pub slot_type: SlotType,
    pub mig_uuid: Option<String>,
    pub mig_profile: Option<String>,
    pub name: String,
    pub capacity_mb: u32,
}

/// What a declared slot is, as plain values.
pub struct SlotUpsertView {
    pub gpu: int,
    pub slot_type: SlotType,
    pub mig_uuid: Option<Seq<char>>,
    pub mig_profile: Option<Seq<char>>,
    pub name: Seq<char>,
    pub capacity_mb: u32,
}

impl SlotUpsert {
    pub open spec fn view_spec(&self) -> SlotUpsertView {
        SlotUpsertView {
            gpu: self.gpu as int,
            slot_type: self.slot_type,
            mig_uuid: match self.mig_uuid {
                Some(u) => Some(u@),
                None => None,
            },
            mig_profile: match self.mig_profile {
                Some(p) => Some(p@),
                None => None,
            },
            name: self.name@,
            capacity_mb: self.capacity_mb,
        }
    }
}

pub open spec fn upsert_views(v: Seq<SlotUpsert>) -> Seq<SlotUpsertView> {
    v.map_values(|s: SlotUpsert| s.view_spec())
}

/// The slot name of a MIG device: `<card>.<slice>`, the slice counted
/// from 1.
pub open spec fn mig_slot_name(index: u32, instance_id: u32) -> Seq<char> {
    decimal_text(index as nat) + "."@ + decimal_text((instance_id + 1) as nat)
}

/// The slots of the MIG devices `devs` of the GPU at position `i`.
pub open spec fn mig_slots(i: int, index: u32, devs: Seq<MigDeviceInfo>) -> Seq<SlotUpsertView>
    decreases devs.len(),
{
    if devs.len() == 0 {
        Seq::empty()
    } else {
        let d = devs.last();
        mig_slots(i, index, devs.drop_last()).push(
            SlotUpsertView {
                gpu: i,
                slot_type: SlotType::MigSlot,
                mig_uuid: Some(d.uuid@),
                mig_profile: Some(d.profile@),
                name: mig_slot_name(index, d.instance_id),
                capacity_mb: d.memory_mb,
            },
        )
    }
}

/// The slots of one GPU: one per MIG device when MIG is on, else the
/// whole card named by its index.
pub open spec fn gpu_slots(i: int, g: GpuInfo) -> Seq<SlotUpsertView> {
    if g.mig_enabled {
        mig_slots(i, g.index, g.mig_devices@)
    } else {
        seq![
            SlotUpsertView {
                gpu: i,
                slot_type: SlotType::FullGpu,
                mig_uuid: None,
                mig_profile: None,
                name: decimal_text(g.index as nat),
                capacity_mb: g.memory_mb,
            },
        ]
    }
}

/// The slots of a snapshot's GPUs, in snapshot order.
pub open spec fn snapshot_slots_spec(gpus: Seq<GpuInfo>) -> Seq<SlotUpsertView>
    decreases gpus.len(),
{
    if gpus.len() == 0 {
        Seq::empty()
    } else {
        snapshot_slots_spec(gpus.drop_last()) + gpu_slots(gpus.len() - 1, gpus.last())
    }
}

/// No MIG device reports the largest instance id (its slice number would
/// not fit).
pub open spec fn instance_ids_fit(gpus: Seq<GpuInfo>) -> bool {
    forall|i: int, j: int|
        0 <= i < gpus.len() && 0 <= j < gpus[i].mig_devices@.len() ==> (
        #[trigger] gpus[i].mig_devices@[j]).instance_id < u32::MAX
}

fn copy_string(s: &String) -> (r: String)
    ensures
        r@ == s@,
{
    let v = chars_of(s.as_str());
    crate::text::string_of(v.as_slice())
}

/// The slots a snapshot declares: MIG-enabled GPUs contribute one slot per
/// MIG device (named `<card>.<slice>`), other GPUs one full-GPU slot named
/// by the card's index.
pub fn snapshot_slots(gpus: &Vec<GpuInfo>) -> (r: Vec<SlotUpsert>)
    requires
        instance_ids_fit(gpus@),
    ensures
        upsert_views(r@) == snapshot_slots_spec(gpus@),
{
    let mut out: Vec<SlotUpsert> = Vec::new();
    let n = gpus.len();
    for i in 0..n
        invariant
            n == gpus@.len(),
            instance_ids_fit(gpus@),
            upsert_views(out@) == snapshot_slots_spec(gpus@.take(i as int)),
    {
        let g = &gpus[i];
        let ghost before = upsert_views(out@);
        assert(gpus@.take(i + 1).drop_last() =~= gpus@.take(i as int));
        if g.mig_enabled {
            let m = g.mig_devices.len();
            for j in 0..m
                invariant
                    m == g.mig_devices@.len(),
                    g == gpus@[i as int],
                    0 <= i < n == gpus@.len(),
                    instance_ids_fit(gpus@),
                    upsert_views(out@) == before + mig_slots(i as int, g.index, g.mig_devices@.take(j as int)),
            {
                let d = &g.mig_devices[j];
                assert(gpus@[i as int].mig_devices@[j as int].instance_id < u32::MAX);
                let ghost prev = upsert_views(out@);
                let name = concat3(
                    decimal_string(g.index as u64).as_str(),
                    ".",
                    decimal_string(d.instance_id as u64 + 1).as_str(),
                );
                let s = SlotUpsert {
                    gpu: i,
                    slot_type: SlotType::MigSlot,
                    mig_uuid: Some(copy_string(&d.uuid)),
                    mig_profile: Some(copy_string(&d.profile)),
                    name,
                    capacity_mb: d.memory_mb,
                };
                out.push(s);
                assert(g.mig_devices@.take(j + 1).drop_last() =~= g.mig_devices@.take(j as int));
                assert(upsert_views(out@) =~= prev.push(s.view_spec()));
            }
            assert(g.mig_devices@.take(m as int) =~= g.mig_devices@);
        } else {
            let s = SlotUpsert {
                gpu: i,
                slot_type: SlotType::FullGpu,
                mig_uuid: None,
                mig_profile: None,
                name: decimal_string(g.index as u64),
                capacity_mb: g.memory_mb,
            };
            out.push(s);
            assert(upsert_views(out@) =~= before.push(s.view_spec()));
        }
        assert(upsert_views(out@) =~= before + gpu_slots(i as int, gpus@[i as int]));
    }
    assert(gpus@.take(n as int) =~= gpus@);
    out
}

// ------------------------------------------------------------ occupancy

/// A deployment in this state still holds its slots.
pub open spec fn holds_slot(s: DeploymentState) -> bool {
    !(s is Removed || s is Replaced || s is Failed)
}

/// How far along a slot's occupant is: running (or running with a failed
/// publish) first, then stopping, then any deploy step, then the rest.
pub open spec fn occupant_rank(s: DeploymentState) -> int {
    match s {
        D::Running | D::PublishFailed => 1,
        D::Stopping => 2,
        D::PullingImage | D::Prepared | D::CreatingContainer | D::Starting | D::WaitingHealth
        | D::Publishing => 3,
        _ => 4,
    }
}

/// The best rank among the occupants that still hold the slot (5 when none
/// does).
pub open spec fn best_rank(occ: Seq<DeploymentState>) -> int
    decreases occ.len(),
{
    if occ.len() == 0 {
        5
    } else {
        let r = best_rank(occ.drop_last());
        if holds_slot(occ.last()) && occupant_rank(occ.last()) < r {
            occupant_rank(occ.last())
        } else {
            r
        }
    }
}

/// The state a slot is restored to: a FREE slot that active deployments
/// still hold takes the state of its most advanced occupant; any other
/// slot keeps its state.
pub open spec fn restored_state_spec(current: SlotState, occ: Seq<DeploymentState>) -> SlotState {
    if current != SlotState::Free {
        current
    } else {
        let r = best_rank(occ);
        if r == 1 {
            SlotState::Running
        } else if r == 2 {
            SlotState::Stopping
        } else if r == 3 {
            SlotState::Deploying
        } else if r == 4 {
            SlotState::Reserved
        } else {
            SlotState::Free
        }
    }
}

fn rank(s: DeploymentState) -> (r: u8)
    ensures
        r == occupant_rank(s),
{
    match s {
        D::Running | D::PublishFailed => 1,
        D::Stopping => 2,
        D::PullingImage | D::Prepared | D::CreatingContainer | D::Starting | D::WaitingHealth
        | D::Publishing => 3,
        _ => 4,
    }
}

/// The state of a slot after a snapshot, from the states of the
/// deployments listed against it.
pub fn restored_slot_state(current: SlotState, occupants: &[DeploymentState]) -> (r: SlotState)
    ensures
        r == restored_state_spec(current, occupants@),
{
    if current != SlotState::Free {
        return current;
    }
    let mut best: u8 = 5;
    let n = occupants.len();
    for i in 0..n
        invariant
            n == occupants@.len(),
            best == best_rank(occupants@.take(i as int)),
    {
        let s = occupants[i];
        assert(occupants@.take(i + 1).drop_last() =~= occupants@.take(i as int));
        let held = !(s == D::Removed || s == D::Replaced || s == D::Failed);
        let k = rank(s);
        if held && k < best {
            best = k;
        }
    }
    assert(occupants@.take(n as int) =~= occupants@);
    if best == 1 {
        SlotState::Running
    } else if best == 2 {
        SlotState::Stopping
    } else if best == 3 {
        SlotState::Deploying
    } else if best == 4 {
        SlotState::Reserved
    } else {
        SlotState::Free
    }
}

/// Every occupant rank is below 5, so a slot that an active deployment
/// holds is never left FREE.
pub proof fn lemma_held_slot_is_not_free(current: SlotState, occ: Seq<DeploymentState>, i: int)
    requires
        0 <= i < occ.len(),
        holds_slot(occ[i]),
    ensures
        restored_state_spec(current, occ) != SlotState::Free,
    decreases occ.len(),
{
    lemma_best_rank_bound(occ, i);
}

proof fn lemma_best_rank_bound(occ: Seq<DeploymentState>, i: int)
    requires
        0 <= i < occ.len(),
        holds_slot(occ[i]),
    ensures
        best_rank(occ) <= occupant_rank(occ[i]),
        1 <= best_rank(occ) <= 4,
    decreases occ.len(),
{
    lemma_best_rank_range(occ.drop_last());
    if i < occ.len() - 1 {
        lemma_best_rank_bound(occ.drop_last(), i);
    }
}

proof fn lemma_best_rank_range(occ: Seq<DeploymentState>)
    ensures
        1 <= best_rank(occ) <= 5,
    decreases occ.len(),
{
    if occ.len() > 0 {
        lemma_best_rank_range(occ.drop_last());
    }
}

// ------------------------------------------------------------ containers

/// One container of a snapshot, with the fields the reconcile reads.
pub struct ContainerReport {
    pub container_id: String,
    pub name: String,
    pub image: String,
    pub state: String,
    pub status: String,
    pub managed: bool,
}

/// The first 12 characters of a container id: its short form.
pub open spec fn short_form(id: Seq<char>) -> Seq<char> {
    truncated(id, 12)
}

/// Whether the snapshot shows a running container with the same short id.
pub open spec fn shows_running(cs: Seq<ContainerReport>, id: Seq<char>) -> bool {
    exists|i: int|
        0 <= i < cs.len() && (#[trigger] cs[i]).state@ == "running"@ && short_form(cs[i].container_id@)
            == short_form(id)
}

/// Whether a deployment the controller believes RUNNING (with its recorded
/// container id, if any) still has its container running in the snapshot.
/// One without a container id is not running.
pub fn still_running(containers: &Vec<ContainerReport>, container_id: Option<&str>) -> (r: bool)
    ensures
        r == (container_id matches Some(id) && shows_running(containers@, id@)),
{
    let id = match container_id {
        Some(id) => id,
        None => return false,
    };
    let want = truncate(id, 12);
    let n = containers.len();
    for i in 0..n
        invariant
            n == containers@.len(),
            want@ == short_form(id@),
            container_id == Some(id),
            forall|k: int|
                0 <= k < i ==> !((#[trigger] containers@[k]).state@ == "running"@ && short_form(
                    containers@[k].container_id@,
                ) == short_form(id@)),
    {
        let c = &containers[i];
        let sv = chars_of(c.state.as_str());
        let running = crate::text::equals_str(sv.as_slice(), "running");
        let have = truncate(c.container_id.as_str(), 12);
        let hv = chars_of(have.as_str());
        assert(containers@[i as int] == *c);
        if running && crate::text::equals_str(hv.as_slice(), want.as_str()) {
            assert(containers@[i as int].state@ == "running"@ && short_form(
                containers@[i as int].container_id@,
            ) == short_form(id@));
            return true;
        }
    }
    false
}

/// The stored form of a container's text fields, each cut to its column:
/// name 255, image 1024, state 32, status 255 characters.
pub fn container_row(c: &ContainerReport) -> (r: (String, String, String, String))
    ensures
        r.0@ == truncated(c.name@, 255),
        r.1@ == truncated(c.image@, 1024),
        r.2@ == truncated(c.state@, 32),
        r.3@ == truncated(c.status@, 255),
{
    (
        truncate(c.name.as_str(), 255),
        truncate(c.image.as_str(), 1024),
        truncate(c.state.as_str(), 32),
        truncate(c.status.as_str(), 255),
    )
}

// ------------------------------------------------------------ GPU tree

/// A `gpus` row of the servers asked for.
pub struct GpuRow {
    pub id: u128,
    pub server_id: u128,
    pub gpu_uuid: String,
    pub display_index: u32,
    pub model: Option<String>,
    pub memory_mb: Option<u32>,
    pub mig_enabled: bool,
}

/// A `gpu_slots` row, with its type and state as stored text.
pub struct SlotRow {
    pub id: u128,
    pub gpu_id: u128,
    pub name: String,
    pub slot_type: String,
    pub mig_uuid: Option<String>,
    pub mig_profile: Option<String>,
    pub capacity_mb: Option<u32>,
    pub state: String,
    pub max_occupants: u32,
}

/// A GPU's membership in a group.
pub struct MembershipRow {
    pub gpu_id: u128,
    pub group_id: u128,
    pub name: String,
}

/// An unmanaged, unadopted container of a snapshot, with the JSON list of
/// the GPU devices it uses.
pub struct ExternalRow {
    pub server_id: u128,
    pub name: String,
    pub image: String,
    pub gpu_uuids: Option<String>,
    pub running: bool,
}

/// A container outside Foundry that occupies a slot's device.
pub struct ExternalOccupant {
    pub name: String,
    pub image: String,
    pub running: bool,
}

pub struct SlotSummary {
    pub id: u128,
    pub name: String,
    pub slot_type: SlotType,
    pub mig_uuid: Option<String>,
    pub mig_profile: Option<String>,
    pub capacity_mb: Option<u32>,
    pub state: SlotState,
    pub max_occupants: u32,
    pub external: Option<ExternalOccupant>,
}

pub struct GpuGroupRef {
    pub id: u128,
    pub name: String,
}

pub struct GpuSummary {
    pub id: u128,
    pub gpu_uuid: String,
    pub index: u32,
    pub model: Option<String>,
    pub memory_mb: Option<u32>,
    pub mig_enabled: bool,
    pub slots: Vec<SlotSummary>,
    pub groups: Vec<GpuGroupRef>,
}

pub open spec fn ov(o: Option<String>) -> Option<Seq<char>> {
    match o {
        Some(s) => Some(s@),
        None => None,
    }
}

/// The devices an external container uses: its list where that parses as a
/// JSON array of strings, else none.
pub open spec fn external_uuids(r: ExternalRow) -> Seq<Seq<char>> {
    match r.gpu_uuids {
        Some(j) => match json_string_array(j@) {
            Some(v) => v,
            None => Seq::empty(),
        },
        None => Seq::empty(),
    }
}

pub open spec fn occupies(r: ExternalRow, server: u128, device: Seq<char>) -> bool {
    r.server_id == server && external_uuids(r).contains(device)
}

/// The position of the first external row of `server` that uses `device`,
/// or -1.
pub open spec fn first_external(ext: Seq<ExternalRow>, server: u128, device: Seq<char>) -> int
    decreases ext.len(),
{
    if ext.len() == 0 {
        -1
    } else {
        let f = first_external(ext.drop_last(), server, device);
        if f >= 0 {
            f
        } else if occupies(ext.last(), server, device) {
            ext.len() - 1
        } else {
            -1
        }
    }
}

/// The device a slot stands for: its MIG device, else the whole GPU.
pub open spec fn slot_device(s: SlotRow, g: GpuRow) -> Seq<char> {
    match s.mig_uuid {
        Some(u) => u@,
        None => g.gpu_uuid@,
    }
}

/// Whether any slot of GPU `gid` is not OFFLINE.
pub open spec fn gpu_live(slots: Seq<SlotRow>, gid: u128) -> bool {
    exists|i: int| 0 <= i < slots.len() && (#[trigger] slots[i]).gpu_id == gid && slots[i].state@ != "OFFLINE"@
}

/// Whether the row at `k` is the first with its id (only that one is given
/// the GPU's slots and groups).
pub open spec fn claims(gpus: Seq<GpuRow>, k: int) -> bool {
    forall|j: int| 0 <= j < k ==> (#[trigger] gpus[j]).id != gpus[k].id
}

/// The slots shown under GPU `gid`: all of its rows when none is live,
/// else only the rows that are not OFFLINE.
pub open spec fn shown_slots(slots: Seq<SlotRow>, gid: u128, live: bool) -> Seq<SlotRow> {
    slots.filter(shown_pred(gid, live))
}

pub open spec fn shown_pred(gid: u128, live: bool) -> spec_fn(SlotRow) -> bool {
    |s: SlotRow| s.gpu_id == gid && (!live || s.state@ != "OFFLINE"@)
}

pub open spec fn member_pred(gid: u128) -> spec_fn(MembershipRow) -> bool {
    |m: MembershipRow| m.gpu_id == gid
}

pub open spec fn member_view() -> spec_fn(MembershipRow) -> (u128, Seq<char>) {
    |m: MembershipRow| (m.group_id, m.name@)
}

pub open spec fn group_view() -> spec_fn(GpuGroupRef) -> (u128, Seq<char>) {
    |r: GpuGroupRef| (r.id, r.name@)
}

pub open spec fn shown_for(gpus: Seq<GpuRow>, slots: Seq<SlotRow>, k: int) -> Seq<SlotRow> {
    if claims(gpus, k) {
        shown_slots(slots, gpus[k].id, gpu_live(slots, gpus[k].id))
    } else {
        Seq::empty()
    }
}

pub open spec fn groups_for(gpus: Seq<GpuRow>, ms: Seq<MembershipRow>, k: int) -> Seq<(u128, Seq<char>)> {
    if claims(gpus, k) {
        ms.filter(member_pred(gpus[k].id)).map_values(member_view())
    } else {
        Seq::empty()
    }
}

/// A slot row whose type and state both read.
pub open spec fn slot_readable(s: SlotRow) -> bool {
    SlotType::from_name_spec(s.slot_type@) is Some && SlotState::from_name_spec(s.state@) is Some
}

pub open spec fn external_matches(o: Option<ExternalOccupant>, ext: Seq<ExternalRow>, server: u128, device: Seq<char>) -> bool {
    let f = first_external(ext, server, device);
    if f < 0 {
        o is None
    } else {
        o matches Some(e) && e.name@ == ext[f].name@ && e.image@ == ext[f].image@ && e.running
            == ext[f].running
    }
}

/// `o` summarises slot row `s` of GPU `g`.
pub open spec fn summarises(o: SlotSummary, s: SlotRow, g: GpuRow, ext: Seq<ExternalRow>) -> bool {
    &&& o.id == s.id
    &&& o.name@ == s.name@
    &&& SlotType::from_name_spec(s.slot_type@) == Some(o.slot_type)
    &&& ov(o.mig_uuid) == ov(s.mig_uuid)
    &&& ov(o.mig_profile) == ov(s.mig_profile)
    &&& o.capacity_mb == s.capacity_mb
    &&& SlotState::from_name_spec(s.state@) == Some(o.state)
    &&& o.max_occupants == s.max_occupants
    &&& external_matches(o.external, ext, g.server_id, slot_device(s, g))
}

pub open spec fn all_shown_readable(gpus: Seq<GpuRow>, slots: Seq<SlotRow>) -> bool {
    forall|k: int, t: int|
        0 <= k < gpus.len() && 0 <= t < shown_for(gpus, slots, k).len() ==> slot_readable(
            #[trigger] shown_for(gpus, slots, k)[t],
        )
}

pub open spec fn summary_of(
    o: GpuSummary,
    gpus: Seq<GpuRow>,
    slots: Seq<SlotRow>,
    ms: Seq<MembershipRow>,
    ext: Seq<ExternalRow>,
    k: int,
) -> bool {
    let g = gpus[k];
    let shown = shown_for(gpus, slots, k);
    &&& o.id == g.id
    &&& o.gpu_uuid@ == g.gpu_uuid@
    &&& o.index == g.display_index
    &&& ov(o.model) == ov(g.model)
    &&& o.memory_mb == g.memory_mb
    &&& o.mig_enabled == g.mig_enabled
    &&& o.slots@.len() == shown.len()
    &&& forall|t: int| 0 <= t < shown.len() ==> summarises(#[trigger] o.slots@[t], shown[t], g, ext)
    &&& o.groups@.map_values(group_view()) == groups_for(gpus, ms, k)
}

fn copy_opt(o: &Option<String>) -> (r: Option<String>)
    ensures
        ov(r) == ov(*o),
{
    match o {
        Some(s) => Some(copy_string(s)),
        None => None,
    }
}

/// The devices of each external row, parsed once.
fn external_devices(ext: &Vec<ExternalRow>) -> (r: Vec<Vec<String>>)
    ensures
        r@.len() == ext@.len(),
        forall|i: int| 0 <= i < ext@.len() ==> string_seq((#[trigger] r@[i])@) == external_uuids(ext@[i]),
{
    let mut out: Vec<Vec<String>> = Vec::new();
    let n = ext.len();
    for i in 0..n
        invariant
            n == ext@.len(),
            out@.len() == i,
            forall|j: int| 0 <= j < i ==> string_seq((#[trigger] out@[j])@) == external_uuids(ext@[j]),
    {
        let parsed = match &ext[i].gpu_uuids {
            Some(j) => match parse_string_array(j.as_str()) {
                Some(v) => v,
                None => Vec::new(),
            },
            None => Vec::new(),
        };
        assert(string_seq(parsed@) == external_uuids(ext@[i as int])) by {
            if parsed@.len() == 0 {
                assert(string_seq(parsed@) =~= Seq::<Seq<char>>::empty());
            }
        }
        out.push(parsed);
    }
    out
}

fn contains_string(v: &Vec<String>, s: &str) -> (r: bool)
    ensures
        r == string_seq(v@).contains(s@),
{
    let sv = chars_of(s);
    let n = v.len();
    for i in 0..n
        invariant
            n == v@.len(),
            sv@ == s@,
            forall|j: int| 0 <= j < i ==> (#[trigger] v@[j])@ != s@,
    {
        let c = chars_of(v[i].as_str());
        if crate::text::equals_str(c.as_slice(), s) {
            assert(string_seq(v@)[i as int] == s@);
            return true;
        }
    }
    assert forall|j: int| 0 <= j < string_seq(v@).len() implies string_seq(v@)[j] != s@ by {
        assert(string_seq(v@)[j] == v@[j]@);
    }
    false
}

proof fn lemma_first_external_none(ext: Seq<ExternalRow>, server: u128, device: Seq<char>)
    requires
        forall|j: int| 0 <= j < ext.len() ==> !occupies(#[trigger] ext[j], server, device),
    ensures
        first_external(ext, server, device) == -1,
    decreases ext.len(),
{
    if ext.len() > 0 {
        assert forall|j: int| 0 <= j < ext.drop_last().len() implies !occupies(
            #[trigger] ext.drop_last()[j],
            server,
            device,
        ) by {
            assert(ext.drop_last()[j] == ext[j]);
        }
        lemma_first_external_none(ext.drop_last(), server, device);
        assert(!occupies(ext[ext.len() - 1], server, device));
    }
}

proof fn lemma_first_external_at(ext: Seq<ExternalRow>, server: u128, device: Seq<char>, i: int)
    requires
        0 <= i < ext.len(),
        occupies(ext[i], server, device),
        forall|j: int| 0 <= j < i ==> !occupies(#[trigger] ext[j], server, device),
    ensures
        first_external(ext, server, device) == i,
    decreases ext.len(),
{
    if i == ext.len() - 1 {
        assert forall|j: int| 0 <= j < ext.drop_last().len() implies !occupies(
            #[trigger] ext.drop_last()[j],
            server,
            device,
        ) by {
            assert(ext.drop_last()[j] == ext[j]);
        }
        lemma_first_external_none(ext.drop_last(), server, device);
    } else {
        assert forall|j: int| 0 <= j < i implies !occupies(#[trigger] ext.drop_last()[j], server, device) by {
            assert(ext.drop_last()[j] == ext[j]);
        }
        assert(ext.drop_last()[i] == ext[i]);
        lemma_first_external_at(ext.drop_last(), server, device, i);
    }
}

/// The external container that occupies `device` on `server`: the first
/// such row.
fn external_for(ext: &Vec<ExternalRow>, devices: &Vec<Vec<String>>, server: u128, device: &str) -> (r: Option<ExternalOccupant>)
    requires
        devices@.len() == ext@.len(),
        forall|i: int| 0 <= i < ext@.len() ==> string_seq((#[trigger] devices@[i])@) == external_uuids(ext@[i]),
    ensures
        external_matches(r, ext@, server, device@),
{
    let n = ext.len();
    for i in 0..n
        invariant
            n == ext@.len(),
            devices@.len() == ext@.len(),
            forall|i: int| 0 <= i < ext@.len() ==> string_seq((#[trigger] devices@[i])@) == external_uuids(ext@[i]),
            forall|j: int| 0 <= j < i ==> !occupies(#[trigger] ext@[j], server, device@),
    {
        let r = &ext[i];
        let hit = r.server_id == server && contains_string(&devices[i], device);
        proof {
            assert(string_seq(devices@[i as int]@) == external_uuids(ext@[i as int]));
        }
        if hit {
            proof {
                lemma_first_external_at(ext@, server, device@, i as int);
            }
            return Some(ExternalOccupant { name: copy_string(&r.name), image: copy_string(&r.image), running: r.running });
        }
    }
    proof {
        lemma_first_external_none(ext@, server, device@);
    }
    None
}

fn slot_device_of(s: &SlotRow, g: &GpuRow) -> (r: String)
    ensures
        r@ == slot_device(*s, *g),
{
    match &s.mig_uuid {
        Some(u) => copy_string(u),
        None => copy_string(&g.gpu_uuid),
    }
}

fn unreadable(what: &str, text: &String) -> (e: AppError)
    ensures
        e is Internal,
{
    AppError::Internal(concat3(what, ": ", text.as_str()))
}

/// One slot row as the dashboard shows it; a type or state that does not
/// read is an internal error.
fn summarise_slot(
    s: &SlotRow,
    g: &GpuRow,
    ext: &Vec<ExternalRow>,
    devices: &Vec<Vec<String>>,
) -> (r: Result<SlotSummary, AppError>)
    requires
        devices@.len() == ext@.len(),
        forall|i: int| 0 <= i < ext@.len() ==> string_seq((#[trigger] devices@[i])@) == external_uuids(ext@[i]),
    ensures
        r is Ok <==> slot_readable(*s),
        r matches Ok(o) ==> summarises(o, *s, *g, ext@),
        r matches Err(e) ==> e is Internal,
{
    let slot_type = match SlotType::parse(s.slot_type.as_str()) {
        Some(t) => t,
        None => return Err(unreadable("unknown slot type", &s.slot_type)),
    };
    let state = match SlotState::parse(s.state.as_str()) {
        Some(t) => t,
        None => return Err(unreadable("unknown slot state", &s.state)),
    };
    let device = slot_device_of(s, g);
    let external = external_for(ext, devices, g.server_id, device.as_str());
    Ok(SlotSummary {
        id: s.id,
        name: copy_string(&s.name),
        slot_type,
        mig_uuid: copy_opt(&s.mig_uuid),
        mig_profile: copy_opt(&s.mig_profile),
        capacity_mb: s.capacity_mb,
        state,
        max_occupants: s.max_occupants,
        external,
    })
}

fn is_offline(s: &SlotRow) -> (r: bool)
    ensures
        r == (s.state@ == "OFFLINE"@),
{
    let v = chars_of(s.state.as_str());
    crate::text::equals_str(v.as_slice(), "OFFLINE")
}

fn any_live(slots: &Vec<SlotRow>, gid: u128) -> (r: bool)
    ensures
        r == gpu_live(slots@, gid),
{
    let n = slots.len();
    for i in 0..n
        invariant
            n == slots@.len(),
            forall|j: int| 0 <= j < i ==> !((#[trigger] slots@[j]).gpu_id == gid && slots@[j].state@ != "OFFLINE"@),
    {
        if slots[i].gpu_id == gid && !is_offline(&slots[i]) {
            assert(slots@[i as int].gpu_id == gid && slots@[i as int].state@ != "OFFLINE"@);
            return true;
        }
    }
    false
}

/// The summaries of the slots shown under GPU `g`.
fn shown_summaries(
    slots: &Vec<SlotRow>,
    g: &GpuRow,
    live: bool,
    ext: &Vec<ExternalRow>,
    devices: &Vec<Vec<String>>,
) -> (r: Result<Vec<SlotSummary>, AppError>)
    requires
        devices@.len() == ext@.len(),
        forall|i: int| 0 <= i < ext@.len() ==> string_seq((#[trigger] devices@[i])@) == external_uuids(ext@[i]),
    ensures
        r is Ok <==> forall|t: int|
            0 <= t < shown_slots(slots@, g.id, live).len() ==> slot_readable(
                #[trigger] shown_slots(slots@, g.id, live)[t],
            ),
        r matches Ok(v) ==> v@.len() == shown_slots(slots@, g.id, live).len() && forall|t: int|
            0 <= t < v@.len() ==> summarises(#[trigger] v@[t], shown_slots(slots@, g.id, live)[t], *g, ext@),
        r matches Err(e) ==> e is Internal,
{
    let ghost pred = shown_pred(g.id, live);
    let mut out: Vec<SlotSummary> = Vec::new();
    let n = slots.len();
    assert(slots@.take(0).filter(pred) =~= Seq::<SlotRow>::empty()) by {
        reveal(Seq::filter);
    }
    let mut i: usize = 0;
    while i < n
        invariant
            i <= n,
            n == slots@.len(),
            devices@.len() == ext@.len(),
            forall|i: int| 0 <= i < ext@.len() ==> string_seq((#[trigger] devices@[i])@) == external_uuids(ext@[i]),
            pred == shown_pred(g.id, live),
            out@.len() == slots@.take(i as int).filter(pred).len(),
            forall|t: int| 0 <= t < out@.len() ==> summarises(#[trigger] out@[t], slots@.take(i as int).filter(pred)[t], *g, ext@),
            forall|t: int| 0 <= t < out@.len() ==> slot_readable(#[trigger] slots@.take(i as int).filter(pred)[t]),
        decreases n - i,
    {
        let s = &slots[i];
        proof {
            lemma_filter_step(slots@, pred, i as int);
        }
        if s.gpu_id == g.id && (!live || !is_offline(s)) {
            assert(pred(slots@[i as int]));
            match summarise_slot(s, g, ext, devices) {
                Ok(o) => {
                    let ghost prev = out@;
                    assert(slot_readable(slots@[i as int]));
                    assert(summarises(o, slots@[i as int], *g, ext@));
                    out.push(o);
                    proof {
                        assert(out@ == prev.push(o));
                        let f = slots@.take(i + 1).filter(pred);
                        let f0 = slots@.take(i as int).filter(pred);
                        assert(f == f0.push(slots@[i as int]));
                        assert forall|t: int| 0 <= t < out@.len() implies slot_readable(#[trigger] f[t]) && summarises(
                            out@[t],
                            f[t],
                            *g,
                            ext@,
                        ) by {
                            if t < out@.len() - 1 {
                                assert(f[t] == f0[t]);
                                assert(out@[t] == prev[t]);
                            } else {
                                assert(f[t] == slots@[i as int]);
                                assert(out@[t] == o);
                            }
                        }
                        assert(forall|t: int| 0 <= t < out@.len() ==> slot_readable(#[trigger] slots@.take(i + 1).filter(pred)[t]));
                    }
                },
                Err(e) => {
                    proof {
                        let f = slots@.take(i + 1).filter(pred);
                        assert(f == slots@.take(i as int).filter(pred).push(slots@[i as int]));
                        lemma_filter_prefix(slots@, pred, i + 1);
                        assert(shown_slots(slots@, g.id, live) == slots@.filter(pred));
                        assert(!slot_readable(shown_slots(slots@, g.id, live)[f.len() - 1]));
                    }
                    return Err(e);
                },
            }
        } else {
            assert(!pred(slots@[i as int]));
            assert(slots@.take(i + 1).filter(pred) == slots@.take(i as int).filter(pred));
            assert forall|t: int| 0 <= t < out@.len() implies slot_readable(#[trigger] slots@.take(i + 1).filter(pred)[t]) by {
                assert(slot_readable(slots@.take(i as int).filter(pred)[t]));
            }
        }
        i = i + 1;
    }
    assert(slots@.take(n as int) =~= slots@);
    assert(shown_slots(slots@, g.id, live) == slots@.filter(pred));
    Ok(out)
}

/// The groups GPU `gid` belongs to, in membership order.
fn groups_of(ms: &Vec<MembershipRow>, gid: u128) -> (r: Vec<GpuGroupRef>)
    ensures
        r@.map_values(group_view()) == ms@.filter(member_pred(gid)).map_values(member_view()),
{
    let ghost pred = member_pred(gid);
    let ghost fv = group_view();
    let ghost fm = member_view();
    let mut out: Vec<GpuGroupRef> = Vec::new();
    let n = ms.len();
    for i in 0..n
        invariant
            n == ms@.len(),
            pred == member_pred(gid),
            fv == group_view(),
            fm == member_view(),
            out@.map_values(fv) == ms@.take(i as int).filter(pred).map_values(fm),
    {
        let m = &ms[i];
        proof {
            lemma_filter_step(ms@, pred, i as int);
        }
        if m.gpu_id == gid {
            let ghost before = ms@.take(i as int).filter(pred);
            let g = GpuGroupRef { id: m.group_id, name: copy_string(&m.name) };
            let ghost prev = out@.map_values(fv);
            out.push(g);
            assert(ms@.take(i + 1).filter(pred) == before.push(ms@[i as int]));
            assert(out@.map_values(fv) =~= prev.push(fv(g)));
            assert(before.push(ms@[i as int]).map_values(fm) =~= before.map_values(fm).push(fm(ms@[i as int])));
        } else {
            assert(ms@.take(i + 1).filter(pred) == ms@.take(i as int).filter(pred));
        }
    }
    assert(ms@.take(n as int) =~= ms@);
    out
}

/// The dashboard's GPU tree for a set of servers, from the rows of one query
/// per relation: per GPU row (in row order, with its server), its slots (all
/// of them where every one is OFFLINE, else the ones that are not), each
/// with the first external container on its server that uses its device,
/// and its group memberships. A row repeating an earlier GPU id gets no
/// slots or groups. A slot whose type or state does not read is an
/// internal error.
pub fn gpu_tree(
    gpus: &Vec<GpuRow>,
    slots: &Vec<SlotRow>,
    memberships: &Vec<MembershipRow>,
    external: &Vec<ExternalRow>,
) -> (r: Result<Vec<(u128, GpuSummary)>, AppError>)
    ensures
        r is Ok <==> all_shown_readable(gpus@, slots@),
        r matches Ok(v) ==> v@.len() == gpus@.len() && forall|k: int|
            0 <= k < v@.len() ==> (#[trigger] v@[k]).0 == gpus@[k].server_id && summary_of(
                v@[k].1,
                gpus@,
                slots@,
                memberships@,
                external@,
                k,
            ),
        r matches Err(e) ==> e is Internal,
{
    let devices = external_devices(external);
    let mut out: Vec<(u128, GpuSummary)> = Vec::new();
    let n = gpus.len();
    for k in 0..n
        invariant
            n == gpus@.len(),
            devices@.len() == external@.len(),
            forall|i: int| 0 <= i < external@.len() ==> string_seq((#[trigger] devices@[i])@) == external_uuids(external@[i]),
            out@.len() == k,
            forall|q: int| 0 <= q < k ==> (#[trigger] out@[q]).0 == gpus@[q].server_id && summary_of(
                out@[q].1,
                gpus@,
                slots@,
                memberships@,
                external@,
                q,
            ),
            forall|q: int, t: int|
                0 <= q < k && 0 <= t < shown_for(gpus@, slots@, q).len() ==> slot_readable(
                    #[trigger] shown_for(gpus@, slots@, q)[t],
                ),
    {
        let g = &gpus[k];
        let mut first = true;
        let mut j: usize = 0;
        while j < k
            invariant
                j <= k < n == gpus@.len(),
                g == gpus@[k as int],
                first == forall|q: int| 0 <= q < j ==> (#[trigger] gpus@[q]).id != gpus@[k as int].id,
            decreases k - j,
        {
            if gpus[j].id == g.id {
                first = false;
            }
            j = j + 1;
        }
        assert(first == claims(gpus@, k as int));
        let (slot_list, groups) = if first {
            let live = any_live(slots, g.id);
            match shown_summaries(slots, g, live, external, &devices) {
                Ok(v) => (v, groups_of(memberships, g.id)),
                Err(e) => {
                    proof {
                        let t = choose|t: int|
                            0 <= t < shown_slots(slots@, g.id, live).len() && !slot_readable(
                                #[trigger] shown_slots(slots@, g.id, live)[t],
                            );
                        assert(!slot_readable(shown_for(gpus@, slots@, k as int)[t]));
                    }
                    return Err(e);
                },
            }
        } else {
            let e: Vec<GpuGroupRef> = Vec::new();
            assert(e@.map_values(group_view()) =~= Seq::<(u128, Seq<char>)>::empty());
            (Vec::new(), e)
        };
        let summary = GpuSummary {
            id: g.id,
            gpu_uuid: copy_string(&g.gpu_uuid),
            index: g.display_index,
            model: copy_opt(&g.model),
            memory_mb: g.memory_mb,
            mig_enabled: g.mig_enabled,
            slots: slot_list,
            groups,
        };
        assert(summary_of(summary, gpus@, slots@, memberships@, external@, k as int));
        out.push((g.server_id, summary));
    }
    Ok(out)
}

proof fn lemma_best_rank_at_most(occ: Seq<DeploymentState>, k: int)
    requires
        1 <= k <= 4,
    ensures
        best_rank(occ) <= k <==> exists|i: int|
            0 <= i < occ.len() && holds_slot(#[trigger] occ[i]) && occupant_rank(occ[i]) <= k,
    decreases occ.len(),
{
    if occ.len() > 0 {
        lemma_best_rank_at_most(occ.drop_last(), k);
        let d = occ.drop_last();
        if exists|i: int| 0 <= i < occ.len() && holds_slot(#[trigger] occ[i]) && occupant_rank(occ[i]) <= k {
            let i = choose|i: int| 0 <= i < occ.len() && holds_slot(#[trigger] occ[i]) && occupant_rank(occ[i]) <= k;
            if i < occ.len() - 1 {
                assert(d[i] == occ[i]);
            }
        }
        if exists|i: int| 0 <= i < d.len() && holds_slot(#[trigger] d[i]) && occupant_rank(d[i]) <= k {
            let i = choose|i: int| 0 <= i < d.len() && holds_slot(#[trigger] d[i]) && occupant_rank(d[i]) <= k;
            assert(occ[i] == d[i]);
        }
    }
}

/// A slot that comes back FREE takes the state of its most advanced holder:
/// RUNNING when a deployment on it runs (or runs with a failed publish),
/// else STOPPING when one is stopping, else DEPLOYING when one is in a
/// deploy step, else RESERVED when any other deployment still holds it
/// (removed, replaced and failed ones hold nothing); a slot no one holds
/// stays FREE, and a slot that is not FREE keeps its state.
pub proof fn lemma_restored_state_follows_the_most_advanced_holder(
    current: SlotState,
    occ: Seq<DeploymentState>,
)
    ensures
        current != SlotState::Free ==> restored_state_spec(current, occ) == current,
        current == SlotState::Free ==> {
            let runs = exists|i: int|
                0 <= i < occ.len() && (#[trigger] occ[i] == D::Running || occ[i] == D::PublishFailed);
            let stops = exists|i: int| 0 <= i < occ.len() && #[trigger] occ[i] == D::Stopping;
            let deploys = exists|i: int|
                0 <= i < occ.len() && (#[trigger] occ[i] == D::PullingImage || occ[i] == D::Prepared
                    || occ[i] == D::CreatingContainer || occ[i] == D::Starting || occ[i] == D::WaitingHealth
                    || occ[i] == D::Publishing);
            let holds = exists|i: int|
                0 <= i < occ.len() && !(#[trigger] occ[i] == D::Removed || occ[i] == D::Replaced
                    || occ[i] == D::Failed);
            &&& runs ==> restored_state_spec(current, occ) == SlotState::Running
            &&& !runs && stops ==> restored_state_spec(current, occ) == SlotState::Stopping
            &&& !runs && !stops && deploys ==> restored_state_spec(current, occ) == SlotState::Deploying
            &&& !runs && !stops && !deploys && holds ==> restored_state_spec(current, occ)
                == SlotState::Reserved
            &&& !holds ==> restored_state_spec(current, occ) == SlotState::Free
        },
{
    lemma_best_rank_range(occ);
    lemma_best_rank_at_most(occ, 1);
    lemma_best_rank_at_most(occ, 2);
    lemma_best_rank_at_most(occ, 3);
    lemma_best_rank_at_most(occ, 4);
}

} // verus!