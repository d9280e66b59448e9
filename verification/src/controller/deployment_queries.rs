//! The read side of deployments: list rows, their ports and member slots,
//! assembled into the summaries the dashboard polls.

use crate::controller::deployments::DeploymentPort;
use crate::controller::error::AppError;
use crate::controller::lifecycle::DeploymentState;
use crate::seqs::{lemma_filter_prefix, lemma_filter_step};
use crate::shared::PortKind;
use crate::text::{chars_of, concat3, decimal_string, decimal_text, push_str, string_from, string_of};
use vstd::prelude::*;

verus! {

/// A deployment row of the list query, with its joined names.
pub struct DeploymentListRow {
    pub id: u128,
    pub container_name: Option<String>,
    pub image_ref: String,
    pub image_digest: Option<String>,
    pub state: String,
    pub error_message: Option<String>,
    pub health_status: Option<String>,
    pub health_detail: Option<String>,
    pub container_id: Option<String>,
    pub adopted: bool,
    pub created_at: i64,
    pub started_at: Option<i64>,
    pub server_id: u128,
    pub server_name: String,
    pub slot_id: u128,
    pub slot_name: String,
    pub gpu_group_id: Option<u128>,
    pub group_name: Option<String>,
    pub gpu_index: u32,
    pub gpu_model: Option<String>,
    pub created_by_name: String,
}

/// A `deployment_ports` row, with its kind as stored text.
pub struct PortRow {
    pub deployment_id: u128,
    pub container_port: u16,
    pub host_port: u16,
    pub protocol: String,
    pub kind: String,
    pub hostname: Option<String>,
    pub primary: bool,
    pub health_path: Option<String>,
    pub max_body_size_bytes: u64,
    pub proxy_timeout_seconds: u32,
}

/// A `deployment_slots` row.
pub struct SlotLink {
    pub deployment_id: u128,
    pub slot_id: u128,
}

pub struct DeploymentSummary {
    pub id: u128,
    pub name: String,
    pub image_ref: String,
    pub image_digest: Option<String>,
    pub state: DeploymentState,
    pub container_id: Option<String>,
    pub error_message: Option<String>,
    pub health_status: Option<String>,
    pub health_detail: Option<String>,
    pub server_id: u128,
    pub server_name: String,
    pub slot_id: u128,
    pub slot_name: String,
    pub slot_ids: Vec<u128>,
    pub gpu_group_id: Option<u128>,
    pub group_name: Option<String>,
    pub gpu_label: String,
    pub created_by_name: String,
    pub adopted: bool,
    pub ports: Vec<DeploymentPort>,
    pub created_at: i64,
    pub started_at: Option<i64>,
}

pub open spec fn ov(o: Option<String>) -> Option<Seq<char>> {
    match o {
        Some(s) => Some(s@),
        None => None,
    }
}

/// A port as plain values.
pub open spec fn port_view(p: DeploymentPort) -> (u16, u16, Seq<char>, PortKind, Option<Seq<char>>, bool, Option<Seq<char>>, u64, u32) {
    (
        p.container_port,
        p.host_port,
        p.protocol@,
        p.kind,
        ov(p.hostname),
        p.primary,
        ov(p.health_path),
        p.max_body_size_bytes,
        p.proxy_timeout_seconds,
    )
}

/// A port row read as a port (its kind must read).
pub open spec fn row_port_view(r: PortRow) -> (u16, u16, Seq<char>, PortKind, Option<Seq<char>>, bool, Option<Seq<char>>, u64, u32) {
    (
        r.container_port,
        r.host_port,
        r.protocol@,
        PortKind::from_name_spec(r.kind@)->0,
        ov(r.hostname),
        r.primary,
        ov(r.health_path),
        r.max_body_size_bytes,
        r.proxy_timeout_seconds,
    )
}

/// The GPU label of a deployment: `GPU <index>`, then ` (<model>)` when
/// the model is known.
pub open spec fn gpu_label_spec(index: u32, model: Option<String>) -> Seq<char> {
    "GPU "@ + decimal_text(index as nat) + match model {
        Some(m) => " ("@ + m@ + ")"@,
        None => Seq::empty(),
    }
}

pub open spec fn port_pred(id: u128) -> spec_fn(PortRow) -> bool {
    |p: PortRow| p.deployment_id == id
}

pub open spec fn link_pred(id: u128) -> spec_fn(SlotLink) -> bool {
    |l: SlotLink| l.deployment_id == id
}

/// Whether row `k` is the first with its id (only that one gets the ports
/// and member slots recorded for the id).
pub open spec fn first_with_id(rows: Seq<DeploymentListRow>, k: int) -> bool {
    forall|j: int| 0 <= j < k ==> (#[trigger] rows[j]).id != rows[k].id
}

pub open spec fn ports_for(rows: Seq<DeploymentListRow>, ports: Seq<PortRow>, k: int) -> Seq<PortRow> {
    if first_with_id(rows, k) {
        ports.filter(port_pred(rows[k].id))
    } else {
        Seq::empty()
    }
}

/// The member slots a summary lists: those recorded for the deployment, or
/// its primary slot when none is.
pub open spec fn slots_for(rows: Seq<DeploymentListRow>, links: Seq<SlotLink>, k: int) -> Seq<u128> {
    let recorded = if first_with_id(rows, k) {
        links.filter(link_pred(rows[k].id)).map_values(|l: SlotLink| l.slot_id)
    } else {
        Seq::empty()
    };
    if recorded.len() == 0 {
        seq![rows[k].slot_id]
    } else {
        recorded
    }
}

/// Every stored state and port kind reads.
pub open spec fn all_readable(rows: Seq<DeploymentListRow>, ports: Seq<PortRow>) -> bool {
    &&& forall|k: int| 0 <= k < rows.len() ==> DeploymentState::from_name_spec((#[trigger] rows[k]).state@) is Some
    &&& forall|i: int| 0 <= i < ports.len() ==> PortKind::from_name_spec((#[trigger] ports[i]).kind@) is Some
}

/// `o` summarises row `k`.
pub open spec fn summarises(
    o: DeploymentSummary,
    rows: Seq<DeploymentListRow>,
    ports: Seq<PortRow>,
    links: Seq<SlotLink>,
    k: int,
) -> bool {
    let r = rows[k];
    &&& o.id == r.id
    &&& o.name@ == match r.container_name {
        Some(n) => n@,
        None => Seq::empty(),
    }
    &&& o.image_ref@ == r.image_ref@
    &&& ov(o.image_digest) == ov(r.image_digest)
    &&& DeploymentState::from_name_spec(r.state@) == Some(o.state)
    &&& ov(o.container_id) == ov(r.container_id)
    &&& ov(o.error_message) == ov(r.error_message)
    &&& ov(o.health_status) == ov(r.health_status)
    &&& ov(o.health_detail) == ov(r.health_detail)
    &&& o.server_id == r.server_id
    &&& o.server_name@ == r.server_name@
    &&& o.slot_id == r.slot_id
    &&& o.slot_name@ == r.slot_name@
    &&& o.slot_ids@ == slots_for(rows, links, k)
    &&& o.gpu_group_id == r.gpu_group_id
    &&& ov(o.group_name) == ov(r.group_name)
    &&& o.gpu_label@ == gpu_label_spec(r.gpu_index, r.gpu_model)
    &&& o.created_by_name@ == r.created_by_name@
    &&& o.adopted == r.adopted
    &&& o.created_at == r.created_at
    &&& o.started_at == r.started_at
    &&& o.ports@.map_values(|p: DeploymentPort| port_view(p)) == ports_for(rows, ports, k).map_values(
        |p: PortRow| row_port_view(p),
    )
}

fn copy_text(s: &String) -> (r: String)
    ensures
        r@ == s@,
{
    string_of(chars_of(s.as_str()).as_slice())
}

fn copy_opt(o: &Option<String>) -> (r: Option<String>)
    ensures
        ov(r) == ov(*o),
{
    match o {
        Some(s) => Some(copy_text(s)),
        None => None,
    }
}

fn gpu_label(index: u32, model: &Option<String>) -> (r: String)
    ensures
        r@ == gpu_label_spec(index, *model),
{
    let mut s = string_from("GPU ");
    push_str(&mut s, decimal_string(index as u64).as_str());
    match model {
        Some(m) => {
            push_str(&mut s, " (");
            push_str(&mut s, m.as_str());
            push_str(&mut s, ")");
        },
        None => {},
    }
    s
}

/// Checks that every port row's kind reads; the first that does not is an
/// internal error.
fn check_port_kinds(ports: &Vec<PortRow>) -> (r: Result<(), AppError>)
    ensures
        r is Ok <==> forall|i: int| 0 <= i < ports@.len() ==> PortKind::from_name_spec((#[trigger] ports@[i]).kind@) is Some,
        r matches Err(e) ==> e is Internal,
{
    let n = ports.len();
    let mut i: usize = 0;
    while i < n
        invariant
            i <= n == ports@.len(),
            forall|j: int| 0 <= j < i ==> PortKind::from_name_spec((#[trigger] ports@[j]).kind@) is Some,
        decreases n - i,
    {
        if PortKind::parse(ports[i].kind.as_str()).is_none() {
            return Err(AppError::Internal(concat3("unknown port kind: ", ports[i].kind.as_str(), "")));
        }
        i = i + 1;
    }
    Ok(())
}

/// The ports recorded for deployment `id`, in row order (every kind reads).
fn ports_of(ports: &Vec<PortRow>, id: u128) -> (r: Vec<DeploymentPort>)
    requires
        forall|i: int| 0 <= i < ports@.len() ==> PortKind::from_name_spec((#[trigger] ports@[i]).kind@) is Some,
    ensures
        r@.map_values(|p: DeploymentPort| port_view(p)) == ports@.filter(port_pred(id)).map_values(
            |p: PortRow| row_port_view(p),
        ),
{
    let ghost pred = port_pred(id);
    let mut out: Vec<DeploymentPort> = Vec::new();
    let n = ports.len();
    let mut i: usize = 0;
    assert(ports@.take(0).filter(pred) =~= Seq::<PortRow>::empty()) by {
        reveal(Seq::filter);
    }
    while i < n
        invariant
            i <= n == ports@.len(),
            pred == port_pred(id),
            forall|i: int| 0 <= i < ports@.len() ==> PortKind::from_name_spec((#[trigger] ports@[i]).kind@) is Some,
            out@.map_values(|p: DeploymentPort| port_view(p)) == ports@.take(i as int).filter(pred).map_values(
                |p: PortRow| row_port_view(p),
            ),
        decreases n - i,
    {
        proof {
            lemma_filter_step(ports@, pred, i as int);
        }
        let p = &ports[i];
        if p.deployment_id == id {
            let kind = match PortKind::parse(p.kind.as_str()) {
                Some(k) => k,
                None => PortKind::Tcp,
            };
            assert(PortKind::from_name_spec(ports@[i as int].kind@) is Some);
            let ghost prev = out@.map_values(|p: DeploymentPort| port_view(p));
            let ghost before = ports@.take(i as int).filter(pred);
            let q = DeploymentPort {
                container_port: p.container_port,
                host_port: p.host_port,
                protocol: copy_text(&p.protocol),
                kind,
                hostname: copy_opt(&p.hostname),
                primary: p.primary,
                health_path: copy_opt(&p.health_path),
                max_body_size_bytes: p.max_body_size_bytes,
                proxy_timeout_seconds: p.proxy_timeout_seconds,
            };
            out.push(q);
            assert(out@.map_values(|p: DeploymentPort| port_view(p)) =~= prev.push(port_view(q)));
            assert(before.push(ports@[i as int]).map_values(|p: PortRow| row_port_view(p)) =~= before.map_values(
                |p: PortRow| row_port_view(p),
            ).push(row_port_view(ports@[i as int])));
        }
        i = i + 1;
    }
    assert(ports@.take(n as int) =~= ports@);
    out
}

/// The slots recorded for deployment `id`, in row order.
fn slots_of(links: &Vec<SlotLink>, id: u128) -> (r: Vec<u128>)
    ensures
        r@ == links@.filter(link_pred(id)).map_values(|l: SlotLink| l.slot_id),
{
    let ghost pred = link_pred(id);
    let mut out: Vec<u128> = Vec::new();
    let n = links.len();
    let mut i: usize = 0;
    assert(links@.take(0).filter(pred) =~= Seq::<SlotLink>::empty()) by {
        reveal(Seq::filter);
    }
    while i < n
        invariant
            i <= n == links@.len(),
            pred == link_pred(id),
            out@ == links@.take(i as int).filter(pred).map_values(|l: SlotLink| l.slot_id),
        decreases n - i,
    {
        proof {
            lemma_filter_step(links@, pred, i as int);
        }
        if links[i].deployment_id == id {
            let ghost before = links@.take(i as int).filter(pred);
            out.push(links[i].slot_id);
            assert(before.push(links@[i as int]).map_values(|l: SlotLink| l.slot_id) =~= before.map_values(
                |l: SlotLink| l.slot_id,
            ).push(links@[i as int].slot_id));
        }
        i = i + 1;
    }
    assert(links@.take(n as int) =~= links@);
    out
}

/// The dashboard's deployment summaries, one per list row in row order:
/// the row's fields, its state read, its name (empty when unset), its GPU
/// label, its ports and its member slots (its primary slot when none is
/// recorded). A state or port kind that does not read is an internal
/// error.
pub fn summaries(
    rows: &Vec<DeploymentListRow>,
    ports: &Vec<PortRow>,
    links: &Vec<SlotLink>,
) -> (r: Result<Vec<DeploymentSummary>, AppError>)
    ensures
        r is Ok <==> all_readable(rows@, ports@),
        r matches Ok(v) ==> v@.len() == rows@.len() && forall|k: int|
            0 <= k < v@.len() ==> summarises(#[trigger] v@[k], rows@, ports@, links@, k),
        r matches Err(e) ==> e is Internal,
{
    check_port_kinds(ports)?;
    let mut out: Vec<DeploymentSummary> = Vec::new();
    let n = rows.len();
    let mut k: usize = 0;
    while k < n
        invariant
            k <= n == rows@.len(),
            forall|i: int| 0 <= i < ports@.len() ==> PortKind::from_name_spec((#[trigger] ports@[i]).kind@) is Some,
            forall|q: int| 0 <= q < k ==> DeploymentState::from_name_spec((#[trigger] rows@[q]).state@) is Some,
            out@.len() == k,
            forall|q: int| 0 <= q < k ==> summarises(#[trigger] out@[q], rows@, ports@, links@, q),
        decreases n - k,
    {
        let r = &rows[k];
        let state = match DeploymentState::parse(r.state.as_str()) {
            Some(s) => s,
            None => return Err(AppError::Internal(concat3("unknown deployment state: ", r.state.as_str(), ""))),
        };
        let mut first = true;
        let mut j: usize = 0;
        while j < k
            invariant
                j <= k < n == rows@.len(),
                r == rows@[k as int],
                first == forall|q: int| 0 <= q < j ==> (#[trigger] rows@[q]).id != rows@[k as int].id,
            decreases k - j,
        {
            if rows[j].id == r.id {
                first = false;
            }
            j = j + 1;
        }
        assert(first == first_with_id(rows@, k as int));
        let (recorded, my_ports) = if first {
            (slots_of(links, r.id), ports_of(ports, r.id))
        } else {
            let e: Vec<DeploymentPort> = Vec::new();
            let s: Vec<u128> = Vec::new();
            assert(e@.map_values(|p: DeploymentPort| port_view(p)) =~= Seq::empty());
            assert(s@ =~= Seq::<u128>::empty());
            (s, e)
        };
        let slot_ids = if recorded.len() == 0 {
            let mut v: Vec<u128> = Vec::new();
            v.push(r.slot_id);
            assert(v@ =~= seq![r.slot_id]);
            v
        } else {
            recorded
        };
        assert(slot_ids@ == slots_for(rows@, links@, k as int));
        let s = DeploymentSummary {
            id: r.id,
            name: match &r.container_name {
                Some(n) => copy_text(n),
                None => String::new(),
            },
            image_ref: copy_text(&r.image_ref),
            image_digest: copy_opt(&r.image_digest),
            state,
            container_id: copy_opt(&r.container_id),
            error_message: copy_opt(&r.error_message),
            health_status: copy_opt(&r.health_status),
            health_detail: copy_opt(&r.health_detail),
            server_id: r.server_id,
            server_name: copy_text(&r.server_name),
            slot_id: r.slot_id,
            slot_name: copy_text(&r.slot_name),
            slot_ids,
            gpu_group_id: r.gpu_group_id,
            group_name: copy_opt(&r.group_name),
            gpu_label: gpu_label(r.gpu_index, &r.gpu_model),
            created_by_name: copy_text(&r.created_by_name),
            adopted: r.adopted,
            ports: my_ports,
            created_at: r.created_at,
            started_at: r.started_at,
        };
        assert(s.name@ == match r.container_name {
            Some(n) => n@,
            None => Seq::<char>::empty(),
        });
        assert(s.ports@.map_values(|p: DeploymentPort| port_view(p)) == ports_for(rows@, ports@, k as int).map_values(
            |p: PortRow| row_port_view(p),
        ));
        assert(summarises(s, rows@, ports@, links@, k as int));
        out.push(s);
        k = k + 1;
    }
    Ok(out)
}

/// The detail view of one deployment needs its summary.
pub fn require_found<T>(found: Option<T>) -> (r: Result<T, AppError>)
    ensures
        match found {
            Some(x) => r == Ok::<T, AppError>(x),
            None => r matches Err(e) && e matches AppError::NotFound(m) && m@ == "deployment not found"@,
        },
{
    match found {
        Some(x) => Ok(x),
        None => Err(AppError::NotFound(string_from("deployment not found"))),
    }
}

} // verus!
