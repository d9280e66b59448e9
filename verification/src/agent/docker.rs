//! The Docker seam in domain terms: the engine's errors and container
//! shapes, pull-progress aggregation, and how engine failures map onto the
//! variants the executor branches on.

use crate::text::{
    chars_of, contains, contains_seq, decimal_string, decimal_text, push_str, starts_with,
    starts_with_seq, string_from, string_of, strip_leading, strip_leading_chars, to_lowercase,
    unicode_lowercase, equals_str, trim, trim_chars,
};
use vstd::prelude::*;

verus! {

/// For text that `serde_json` parses as a JSON array: per element, the
/// string values of its `ID`, `Id` and `id` members (each `None` where the
/// member is missing or not a string). `None` for any other text.
pub uninterp spec fn json_device_fields(text: Seq<char>) -> Option<
    Seq<(Option<Seq<char>>, Option<Seq<char>>, Option<Seq<char>>)>,
>;

pub open spec fn field_views(v: Seq<(Option<String>, Option<String>, Option<String>)>) -> Seq<
    (Option<Seq<char>>, Option<Seq<char>>, Option<Seq<char>>),
> {
    v.map_values(
        |t: (Option<String>, Option<String>, Option<String>)|
            (opt_view(t.0), opt_view(t.1), opt_view(t.2)),
    )
}

pub open spec fn opt_view(o: Option<String>) -> Option<Seq<char>> {
    match o {
        Some(s) => Some(s@),
        None => None,
    }
}

/// Parses `text` with `serde_json::from_str` into a `serde_json::Value`
/// and, where it is an array, reads `get(key).and_then(Value::as_str)` for
/// the keys `ID`, `Id` and `id` of each element, in order. Claimed: the
/// result is `json_device_fields` of the text.
#[verifier::external_body]
fn parse_device_fields(text: &str) -> (r: Option<Vec<(Option<String>, Option<String>, Option<String>)>>)
    ensures
        match r {
            Some(v) => json_device_fields(text@) == Some(field_views(v@)),
            None => json_device_fields(text@) is None,
        },
{
    let value = serde_json::from_str::<serde_json::Value>(text).ok()?;
    let field = |d: &serde_json::Value, k: &str| d.get(k).and_then(serde_json::Value::as_str).map(str::to_owned);
    Some(value.as_array()?.iter().map(|d| (field(d, "ID"), field(d, "Id"), field(d, "id"))).collect())
}

/// The id a CDI device entry carries: its `ID`, else `Id`, else `id`.
pub open spec fn device_id(t: (Option<Seq<char>>, Option<Seq<char>>, Option<Seq<char>>)) -> Option<Seq<char>> {
    if t.0 is Some {
        t.0
    } else if t.1 is Some {
        t.1
    } else {
        t.2
    }
}

/// The NVIDIA device among the CDI devices of `docker info` (its JSON
/// text): the first whose id starts with `nvidia.com/gpu`.
pub open spec fn cdi_device_spec(text: Seq<char>) -> Option<Seq<char>> {
    match json_device_fields(trim(text)) {
        Some(fields) => nvidia_device_spec(fields.map_values(|t| device_id(t))),
        None => None,
    }
}

/// The NVIDIA CDI device that `docker info` lists, if any.
pub fn nvidia_cdi_device(value: &str) -> (r: Option<String>)
    ensures
        match r {
            Some(s) => cdi_device_spec(value@) == Some(s@),
            None => cdi_device_spec(value@) is None,
        },
{
    let v = chars_of(value);
    let t = string_of(trim_chars(v.as_slice()).as_slice());
    let fields = match parse_device_fields(t.as_str()) {
        Some(f) => f,
        None => return None,
    };
    let mut ids: Vec<Option<String>> = Vec::new();
    let n = fields.len();
    for i in 0..n
        invariant
            n == fields@.len(),
            opt_views(ids@) =~= field_views(fields@).take(i as int).map_values(|t| device_id(t)),
    {
        let ghost prev = opt_views(ids@);
        let id = if let Some(a) = &fields[i].0 {
            Some(a.clone())
        } else if let Some(b) = &fields[i].1 {
            Some(b.clone())
        } else if let Some(c) = &fields[i].2 {
            Some(c.clone())
        } else {
            None
        };
        ids.push(id);
        assert(field_views(fields@).take(i + 1) =~= field_views(fields@).take(i as int).push(
            field_views(fields@)[i as int],
        ));
        assert(opt_views(ids@) =~= prev.push(opt_view(id)));
    }
    assert(field_views(fields@).take(n as int) =~= field_views(fields@));
    first_nvidia_device(&ids)
}

/// Errors the engine surfaces. The variants the executor branches on are
/// explicit; everything else collapses to `Other`.
#[derive(Debug)]
pub enum DockerError {
    Unavailable(String),
    NotFound,
    Conflict,
    ImagePull { message: String, unauthorized: bool },
    Timeout,
    Other(String),
}

impl DockerError {
    pub open spec fn message_spec(&self) -> Seq<char> {
        match self {
            DockerError::Unavailable(m) => "docker unavailable: "@ + m@,
            DockerError::NotFound => "not found"@,
            DockerError::Conflict => "name already in use"@,
            DockerError::ImagePull { message, .. } => "image pull failed: "@ + message@,
            DockerError::Timeout => "docker operation timed out"@,
            DockerError::Other(m) => m@,
        }
    }

    /// The error's text, as `to_string()` renders it.
    pub fn message(&self) -> (r: String)
        ensures
            r@ == self.message_spec(),
    {
        match self {
            DockerError::Unavailable(m) => {
                let mut s = string_from("docker unavailable: ");
                push_str(&mut s, m.as_str());
                s
            },
            DockerError::NotFound => string_from("not found"),
            DockerError::Conflict => string_from("name already in use"),
            DockerError::ImagePull { message, .. } => {
                let mut s = string_from("image pull failed: ");
                push_str(&mut s, message.as_str());
                s
            },
            DockerError::Timeout => string_from("docker operation timed out"),
            DockerError::Other(m) => m.clone(),
        }
    }
}

/// One container as the engine reports it: id, lowercased state (`running`,
/// `exited`, ...) and its labels as key/value pairs.
#[derive(Clone, Debug)]
pub struct ContainerSummary {
    pub id: String,
    pub state: String,
    pub labels: Vec<(String, String)>,
}

pub struct ContainerHealth {
    pub status: String,
    pub detail: Option<String>,
}

/// A registry credential in domain terms.
pub enum RegistryCreds {
    Token(String),
    UserPassword { username: String, password: String },
}

pub struct PortSpec {
    pub container_port: u16,
    pub host_port: u16,
    /// `tcp` / `udp`.
    pub protocol: String,
}

pub struct BindSpec {
    pub host_path: String,
    pub container_path: String,
    pub read_only: bool,
}

/// Everything needed to create one container.
pub struct ContainerSpec {
    pub name: String,
    pub image: String,
    pub env: Vec<(String, String)>,
    pub labels: Vec<(String, String)>,
    pub ports: Vec<PortSpec>,
    pub binds: Vec<BindSpec>,
    /// Docker `--memory` cap in bytes; `None` is unlimited.
    pub memory_bytes: Option<i64>,
    /// NVML device UUIDs for the single device request.
    pub device_uuids: Vec<String>,
}

/// The exposed-port key of a port: `<port>/<protocol>`.
pub open spec fn port_key_spec(p: PortSpec) -> Seq<char> {
    decimal_text(p.container_port as nat) + "/"@ + p.protocol@
}

pub fn port_key(p: &PortSpec) -> (r: String)
    ensures
        r@ == port_key_spec(*p),
{
    let mut s = decimal_string(p.container_port as u64);
    push_str(&mut s, "/");
    push_str(&mut s, p.protocol.as_str());
    s
}

/// Docker's compact bind syntax: `host:container`, with `:ro` when
/// read-only.
pub open spec fn bind_text(b: BindSpec) -> Seq<char> {
    b.host_path@ + ":"@ + b.container_path@ + if b.read_only {
        ":ro"@
    } else {
        Seq::empty()
    }
}

pub fn bind_string(b: &BindSpec) -> (r: String)
    ensures
        r@ == bind_text(*b),
{
    let mut s = b.host_path.clone();
    push_str(&mut s, ":");
    push_str(&mut s, b.container_path.as_str());
    if b.read_only {
        push_str(&mut s, ":ro");
    } else {
        assert(s@ + Seq::<char>::empty() =~= s@);
    }
    s
}

/// One `KEY=value` environment entry.
pub fn env_entry(key: &str, value: &str) -> (r: String)
    ensures
        r@ == key@ + "="@ + value@,
{
    let mut s = string_from(key);
    push_str(&mut s, "=");
    push_str(&mut s, value);
    s
}

/// The per-layer state of an image pull: bytes done and total per layer,
/// and the layers that finished.
pub struct PullProgress {
    pub layers: Vec<(String, u64, u64)>,
    pub done: Vec<String>,
}

pub open spec fn layer_ids(layers: Seq<(String, u64, u64)>) -> Seq<Seq<char>> {
    layers.map_values(|l: (String, u64, u64)| l.0@)
}

pub open spec fn id_views(ids: Seq<String>) -> Seq<Seq<char>> {
    ids.map_values(|s: String| s@)
}

/// What the engine reports about one layer in a pull-stream message.
pub struct PullEvent {
    pub id: Option<String>,
    pub status: Option<String>,
    /// `progressDetail.current` and `.total`, where reported.
    pub progress: Option<(Option<i64>, Option<i64>)>,
}

/// The position of layer `id` (its last record), or -1.
pub open spec fn layer_index(layers: Seq<(String, u64, u64)>, id: Seq<char>) -> int
    decreases layers.len(),
{
    if layers.len() == 0 {
        -1
    } else if layers.last().0@ == id {
        layers.len() - 1
    } else {
        layer_index(layers.drop_last(), id)
    }
}

/// The bytes done and total recorded for layer `id`, if it is recorded.
pub open spec fn layer_of(layers: Seq<(String, u64, u64)>, id: Seq<char>) -> Option<(u64, u64)> {
    let i = layer_index(layers, id);
    if 0 <= i < layers.len() {
        Some((layers[i].1, layers[i].2))
    } else {
        None
    }
}

proof fn lemma_layer_index(layers: Seq<(String, u64, u64)>, id: Seq<char>)
    ensures
        -1 <= layer_index(layers, id) < layers.len(),
        layer_index(layers, id) >= 0 ==> layers[layer_index(layers, id)].0@ == id,
        layer_index(layers, id) == -1 ==> !layer_ids(layers).contains(id),
        layer_ids(layers).no_duplicates() ==> forall|k: int|
            0 <= k < layers.len() && (#[trigger] layers[k]).0@ == id ==> layer_index(layers, id) == k,
    decreases layers.len(),
{
    if layers.len() > 0 {
        let d = layers.drop_last();
        lemma_layer_index(d, id);
        assert(layer_ids(d) =~= layer_ids(layers).drop_last());
        if layer_index(layers, id) == -1 {
            assert(!layer_ids(layers).contains(id)) by {
                if layer_ids(layers).contains(id) {
                    let k = choose|k: int| 0 <= k < layer_ids(layers).len() && layer_ids(layers)[k] == id;
                    if k < d.len() {
                        assert(layer_ids(d)[k] == id);
                    }
                }
            }
        }
        if layer_ids(layers).no_duplicates() {
            assert(layer_ids(d).no_duplicates()) by {
                assert forall|a: int, b: int|
                    0 <= a < layer_ids(d).len() && 0 <= b < layer_ids(d).len() && a != b implies layer_ids(d)[a]
                    != layer_ids(d)[b] by {
                    assert(layer_ids(d)[a] == layer_ids(layers)[a]);
                    assert(layer_ids(d)[b] == layer_ids(layers)[b]);
                }
            }
            assert forall|k: int| 0 <= k < layers.len() && (#[trigger] layers[k]).0@ == id implies layer_index(
                layers,
                id,
            ) == k by {
                if k < layers.len() - 1 {
                    assert(d[k] == layers[k]);
                    assert(layer_ids(layers)[k] == id);
                    if layers.last().0@ == id {
                        assert(layer_ids(layers)[layers.len() - 1] == id);
                    }
                }
            }
        }
    }
}

pub open spec fn clamp_bytes(v: Option<i64>) -> u64 {
    match v {
        Some(x) => if x < 0 {
            0
        } else {
            x as u64
        },
        None => 0,
    }
}

pub open spec fn finished_status(s: Option<String>) -> bool {
    s matches Some(t) && (t@ == "Pull complete"@ || t@ == "Already exists"@)
}

pub open spec fn downloading_status(s: Option<String>) -> bool {
    s matches Some(t) && t@ == "Downloading"@
}

proof fn lemma_layer_at(layers: Seq<(String, u64, u64)>, k: int)
    requires
        layer_ids(layers).no_duplicates(),
        0 <= k < layers.len(),
    ensures
        layer_of(layers, layers[k].0@) == Some((layers[k].1, layers[k].2)),
{
    lemma_layer_index(layers, layers[k].0@);
}

proof fn lemma_layer_absent(layers: Seq<(String, u64, u64)>, id: Seq<char>)
    requires
        !layer_ids(layers).contains(id),
    ensures
        layer_of(layers, id) is None,
{
    lemma_layer_index(layers, id);
    if layer_index(layers, id) >= 0 {
        assert(layer_ids(layers)[layer_index(layers, id)] == id);
    }
}

proof fn lemma_layer_set(layers: Seq<(String, u64, u64)>, i: int, e: (String, u64, u64))
    requires
        layer_ids(layers).no_duplicates(),
        0 <= i < layers.len(),
        e.0@ == layers[i].0@,
    ensures
        layer_ids(layers.update(i, e)) == layer_ids(layers),
        layer_of(layers.update(i, e), e.0@) == Some((e.1, e.2)),
        forall|other: Seq<char>|
            other != e.0@ ==> #[trigger] layer_of(layers.update(i, e), other) == layer_of(layers, other),
{
    let u = layers.update(i, e);
    assert(layer_ids(u) =~= layer_ids(layers));
    lemma_layer_at(u, i);
    assert forall|other: Seq<char>| other != e.0@ implies #[trigger] layer_of(u, other) == layer_of(
        layers,
        other,
    ) by {
        lemma_layer_index(layers, other);
        lemma_layer_index(u, other);
        let a = layer_index(layers, other);
        let b = layer_index(u, other);
        if a >= 0 {
            assert(a != i);
            assert(u[a] == layers[a]);
        }
        if b >= 0 {
            assert(b != i);
            assert(u[b] == layers[b]);
        }
        if a == -1 && b >= 0 {
            assert(layer_ids(layers)[b] == other);
        }
        if b == -1 && a >= 0 {
            assert(layer_ids(u)[a] == other);
        }
    }
}

proof fn lemma_layer_push(layers: Seq<(String, u64, u64)>, e: (String, u64, u64))
    requires
        layer_ids(layers).no_duplicates(),
        !layer_ids(layers).contains(e.0@),
    ensures
        layer_ids(layers.push(e)) == layer_ids(layers).push(e.0@),
        layer_ids(layers.push(e)).no_duplicates(),
        layer_of(layers.push(e), e.0@) == Some((e.1, e.2)),
        forall|other: Seq<char>|
            other != e.0@ ==> #[trigger] layer_of(layers.push(e), other) == layer_of(layers, other),
{
    let u = layers.push(e);
    assert(layer_ids(u) =~= layer_ids(layers).push(e.0@));
    assert(layer_ids(u).no_duplicates()) by {
        assert forall|a: int, b: int|
            0 <= a < layer_ids(u).len() && 0 <= b < layer_ids(u).len() && a != b implies layer_ids(u)[a]
            != layer_ids(u)[b] by {
            if a == layers.len() as int {
                assert(layer_ids(layers)[b] == layer_ids(u)[b]);
            } else if b == layers.len() as int {
                assert(layer_ids(layers)[a] == layer_ids(u)[a]);
            }
        }
    }
    lemma_layer_at(u, layers.len() as int);
    assert forall|other: Seq<char>| other != e.0@ implies #[trigger] layer_of(u, other) == layer_of(
        layers,
        other,
    ) by {
        assert(u.drop_last() =~= layers);
        lemma_layer_index(layers, other);
        let a = layer_index(layers, other);
        assert(layer_index(u, other) == a);
        if a >= 0 {
            assert(u[a] == layers[a]);
        }
    }
}

impl PullProgress {
    /// Each layer and each finished layer is recorded once.
    pub open spec fn wf(&self) -> bool {
        &&& layer_ids(self.layers@).no_duplicates()
        &&& id_views(self.done@).no_duplicates()
        &&& forall|i: int|
            0 <= i < self.done@.len() ==> layer_ids(self.layers@).contains(
                #[trigger] id_views(self.done@)[i],
            )
    }

    pub fn new() -> (p: PullProgress)
        ensures
            p.wf(),
            p.layers@.len() == 0,
            p.done@.len() == 0,
    {
        let p = PullProgress { layers: Vec::new(), done: Vec::new() };
        assert(layer_ids(p.layers@) =~= Seq::<Seq<char>>::empty());
        assert(id_views(p.done@) =~= Seq::<Seq<char>>::empty());
        p
    }

    fn find_layer(&self, id: &str) -> (r: Option<usize>)
        ensures
            r matches Some(i) ==> i < self.layers@.len() && layer_ids(self.layers@)[i as int] == id@,
            r is None ==> !layer_ids(self.layers@).contains(id@),
    {
        let n = self.layers.len();
        for i in 0..n
            invariant
                n == self.layers@.len(),
                forall|k: int| 0 <= k < i ==> layer_ids(self.layers@)[k] != id@,
        {
            let v = chars_of(self.layers[i].0.as_str());
            if equals_str(v.as_slice(), id) {
                return Some(i);
            }
        }
        None
    }

    fn is_done(&self, id: &str) -> (b: bool)
        ensures
            b == id_views(self.done@).contains(id@),
    {
        let n = self.done.len();
        for i in 0..n
            invariant
                n == self.done@.len(),
                forall|k: int| 0 <= k < i ==> id_views(self.done@)[k] != id@,
        {
            let v = chars_of(self.done[i].as_str());
            if equals_str(v.as_slice(), id) {
                assert(id_views(self.done@)[i as int] == id@);
                return true;
            }
        }
        false
    }

    /// Ensures the layer is recorded; returns its position.
    fn entry(&mut self, id: &str) -> (i: usize)
        requires
            old(self).wf(),
        ensures
            final(self).wf(),
            i < final(self).layers@.len(),
            layer_ids(final(self).layers@)[i as int] == id@,
            final(self).done@ == old(self).done@,
            layer_ids(old(self).layers@).contains(id@) ==> final(self).layers@ == old(self).layers@,
            layer_of(final(self).layers@, id@) == match layer_of(old(self).layers@, id@) {
                Some(l) => Some(l),
                None => Some((0u64, 0u64)),
            },
            forall|other: Seq<char>|
                other != id@ ==> #[trigger] layer_of(final(self).layers@, other) == layer_of(
                    old(self).layers@,
                    other,
                ),
    {
        match self.find_layer(id) {
            Some(i) => {
                proof {
                    lemma_layer_at(self.layers@, i as int);
                }
                i
            },
            None => {
                let ghost before = layer_ids(self.layers@);
                let ghost old_layers = self.layers@;
                proof {
                    lemma_layer_absent(self.layers@, id@);
                }
                let e = (string_from(id), 0u64, 0u64);
                proof {
                    lemma_layer_push(self.layers@, e);
                }
                self.layers.push(e);
                assert(layer_ids(self.layers@) =~= before.push(id@));
                assert forall|k: int|
                    0 <= k < self.done@.len() implies layer_ids(self.layers@).contains(
                    #[trigger] id_views(self.done@)[k],
                ) by {
                    let j = choose|j: int| 0 <= j < before.len() && before[j] == id_views(self.done@)[k];
                    assert(layer_ids(self.layers@)[j] == before[j]);
                }
                self.layers.len() - 1
            },
        }
    }

    /// Folds one pull-stream message into the state. A finished layer
    /// ("Pull complete" or "Already exists") counts fully even when Docker
    /// never reported its size; a download reports bytes done and total.
    pub fn update(&mut self, event: &PullEvent)
        requires
            old(self).wf(),
        ensures
            final(self).wf(),
            event.id is None ==> *final(self) == *old(self),
            event.id matches Some(id) ==> forall|other: Seq<char>|
                other != id@ ==> #[trigger] layer_of(final(self).layers@, other) == layer_of(
                    old(self).layers@,
                    other,
                ),
            event.id matches Some(id) ==> forall|other: Seq<char>|
                other != id@ ==> (#[trigger] id_views(final(self).done@).contains(other)
                    == id_views(old(self).done@).contains(other)),
            event.id is Some && finished_status(event.status) ==> {
                let t = match layer_of(old(self).layers@, event.id->0@) {
                    Some(l) => l.1,
                    None => 0,
                };
                &&& layer_of(final(self).layers@, event.id->0@) == Some((t, t))
                &&& id_views(final(self).done@).contains(event.id->0@)
            },
            event.id is Some && downloading_status(event.status) && event.progress is Some
                ==> {
                &&& layer_of(final(self).layers@, event.id->0@) == Some(
                    (clamp_bytes(event.progress.unwrap().0), clamp_bytes(event.progress.unwrap().1)),
                )
                &&& final(self).done@ == old(self).done@
            },
            event.id is Some && downloading_status(event.status) && event.progress is None
                ==> *final(self) == *old(self),
            event.id is Some && !finished_status(event.status) && !downloading_status(
                event.status,
            ) ==> {
                &&& layer_of(final(self).layers@, event.id->0@) == match layer_of(old(self).layers@, event.id->0@) {
                    Some(l) => Some(l),
                    None => Some((0u64, 0u64)),
                }
                &&& final(self).done@ == old(self).done@
            },
    {
        let id = match &event.id {
            Some(id) => id,
            None => {
                return;
            },
        };
        let status = match &event.status {
            Some(s) => chars_of(s.as_str()),
            None => Vec::new(),
        };
        proof {
            reveal_strlit("Pull complete");
            reveal_strlit("Already exists");
            reveal_strlit("Downloading");
        }
        assert(event.status is None ==> status@.len() == 0);
        assert("Downloading"@.len() == 11);
        if equals_str(status.as_slice(), "Pull complete") || equals_str(
            status.as_slice(),
            "Already exists",
        ) {
            let i = self.entry(id.as_str());
            let total = self.layers[i].2;
            let name = self.layers[i].0.clone();
            let ghost ids = layer_ids(self.layers@);
            let e = (name, total, total);
            proof {
                lemma_layer_set(self.layers@, i as int, e);
                lemma_layer_at(self.layers@, i as int);
            }
            self.layers.set(i, e);
            assert(layer_ids(self.layers@) =~= ids);
            if !self.is_done(id.as_str()) {
                let ghost dv = id_views(self.done@);
                self.done.push(string_from(id.as_str()));
                assert(id_views(self.done@) =~= dv.push(id@));
                assert forall|other: Seq<char>| other != id@ implies (#[trigger] id_views(
                    self.done@,
                ).contains(other) == dv.contains(other)) by {
                    if id_views(self.done@).contains(other) {
                        let k = choose|k: int|
                            0 <= k < id_views(self.done@).len() && id_views(self.done@)[k] == other;
                        assert(k < dv.len());
                        assert(dv[k] == other);
                    }
                    if dv.contains(other) {
                        let k = choose|k: int| 0 <= k < dv.len() && dv[k] == other;
                        assert(id_views(self.done@)[k] == other);
                    }
                }
                assert(id_views(self.done@)[dv.len() as int] == id@);
                assert(ids[i as int] == id@);
                assert forall|k: int|
                    0 <= k < self.done@.len() implies layer_ids(self.layers@).contains(
                    #[trigger] id_views(self.done@)[k],
                ) by {
                    if k < dv.len() {
                    } else {
                        assert(layer_ids(self.layers@)[i as int] == id@);
                    }
                }
            }
        } else if equals_str(status.as_slice(), "Downloading") {
            if let Some((current, total)) = event.progress {
                let i = self.entry(id.as_str());
                let name = self.layers[i].0.clone();
                let ghost ids = layer_ids(self.layers@);
                let c: u64 = match current {
                    Some(c) => if c < 0 {
                        0
                    } else {
                        c as u64
                    },
                    None => 0,
                };
                let t: u64 = match total {
                    Some(t) => if t < 0 {
                        0
                    } else {
                        t as u64
                    },
                    None => 0,
                };
                let e = (name, c, t);
                proof {
                    lemma_layer_set(self.layers@, i as int, e);
                }
                self.layers.set(i, e);
                assert(layer_ids(self.layers@) =~= ids);
            }
        } else {
            self.entry(id.as_str());
        }
    }
}

pub open spec fn bytes_done(layers: Seq<(String, u64, u64)>) -> int
    decreases layers.len(),
{
    if layers.len() == 0 {
        0
    } else {
        bytes_done(layers.drop_last()) + layers.last().1
    }
}

pub open spec fn bytes_total(layers: Seq<(String, u64, u64)>) -> int
    decreases layers.len(),
{
    if layers.len() == 0 {
        0
    } else {
        bytes_total(layers.drop_last()) + layers.last().2
    }
}

/// `pulling: <done>/<layers> layers · <MiB done> / <MiB total> MB`.
pub open spec fn progress_line(p: PullProgress) -> Seq<char> {
    "pulling: "@ + decimal_text(p.done@.len()) + "/"@ + decimal_text(p.layers@.len())
        + " layers · "@ + decimal_text((bytes_done(p.layers@) / 1048576) as nat) + " / "@
        + decimal_text((bytes_total(p.layers@) / 1048576) as nat) + " MB"@
}

proof fn lemma_bytes_nonneg(layers: Seq<(String, u64, u64)>)
    ensures
        bytes_done(layers) >= 0,
        bytes_total(layers) >= 0,
    decreases layers.len(),
{
    if layers.len() > 0 {
        lemma_bytes_nonneg(layers.drop_last());
    }
}

proof fn lemma_bytes_prefix(layers: Seq<(String, u64, u64)>, k: int)
    requires
        0 <= k <= layers.len(),
    ensures
        bytes_done(layers.take(k)) <= bytes_done(layers),
        bytes_total(layers.take(k)) <= bytes_total(layers),
    decreases layers.len(),
{
    if k < layers.len() {
        assert(layers.drop_last().take(k) =~= layers.take(k));
        lemma_bytes_prefix(layers.drop_last(), k);
    } else {
        assert(layers.take(k) =~= layers);
    }
}

impl PullProgress {
    /// The operator line for the current state.
    pub fn line(&self) -> (r: String)
        requires
            bytes_done(self.layers@) <= u64::MAX,
            bytes_total(self.layers@) <= u64::MAX,
        ensures
            r@ == progress_line(*self),
    {
        let n = self.layers.len();
        let mut cur: u64 = 0;
        let mut total: u64 = 0;
        for i in 0..n
            invariant
                n == self.layers@.len(),
                bytes_done(self.layers@) <= u64::MAX,
                bytes_total(self.layers@) <= u64::MAX,
                cur == bytes_done(self.layers@.take(i as int)),
                total == bytes_total(self.layers@.take(i as int)),
        {
            assert(self.layers@.take(i + 1).drop_last() =~= self.layers@.take(i as int));
            proof {
                lemma_bytes_prefix(self.layers@, i + 1);
                lemma_bytes_nonneg(self.layers@.take(i as int));
            }
            cur = cur + self.layers[i].1;
            total = total + self.layers[i].2;
        }
        assert(self.layers@.take(n as int) =~= self.layers@);
        let mut s = string_from("pulling: ");
        push_str(&mut s, decimal_string(self.done.len() as u64).as_str());
        push_str(&mut s, "/");
        push_str(&mut s, decimal_string(n as u64).as_str());
        push_str(&mut s, " layers · ");
        push_str(&mut s, decimal_string(cur / 1048576).as_str());
        push_str(&mut s, " / ");
        push_str(&mut s, decimal_string(total / 1048576).as_str());
        push_str(&mut s, " MB");
        s
    }
}

/// Whether a pull failure reads as an authentication or permission
/// refusal, given the message already lowercased.
pub open spec fn unauthorized_lower(m: Seq<char>) -> bool {
    contains(m, "unauthor"@) || contains(m, "denied"@) || contains(m, "401"@) || contains(
        m,
        "forbidden"@,
    )
}

fn contains_str(v: &[char], w: &str) -> (b: bool)
    ensures
        b == contains(v@, w@),
{
    let wv = chars_of(w);
    contains_seq(v, wv.as_slice())
}

pub fn looks_unauthorized(msg: &str) -> (b: bool)
    ensures
        b == unauthorized_lower(unicode_lowercase(msg@)),
{
    let lower = to_lowercase(msg);
    let m = chars_of(lower.as_str());
    contains_str(m.as_slice(), "unauthor") || contains_str(m.as_slice(), "denied")
        || contains_str(m.as_slice(), "401") || contains_str(m.as_slice(), "forbidden")
}

/// The engine failure mapped onto the variants the executor branches on:
/// a 404 or 409 status from the daemon decides first, then the message
/// text. `status_code` is the daemon's status where it answered at all.
pub open spec fn mapped_error(context: Seq<char>, status_code: Option<u16>, msg: Seq<char>) -> DockerErrorView {
    let lower = unicode_lowercase(msg);
    if status_code == Some(404u16) {
        DockerErrorView::NotFound
    } else if status_code == Some(409u16) {
        DockerErrorView::Conflict
    } else if contains(msg, "404"@) || contains(lower, "no such container"@) {
        DockerErrorView::NotFound
    } else if contains(msg, "409"@) || contains(lower, "conflict"@) {
        DockerErrorView::Conflict
    } else if contains(lower, "error trying to connect"@) || contains(
        lower,
        "connection refused"@,
    ) || contains(lower, "no such file or directory"@) {
        DockerErrorView::Unavailable(msg)
    } else if contains(lower, "timed out"@) || contains(lower, "timeout"@) {
        DockerErrorView::Timeout
    } else {
        DockerErrorView::Other(context + ": "@ + msg)
    }
}

/// `DockerError` with its text fields as character sequences.
pub ghost enum DockerErrorView {
    Unavailable(Seq<char>),
    NotFound,
    Conflict,
    ImagePull { message: Seq<char>, unauthorized: bool },
    Timeout,
    Other(Seq<char>),
}

impl DockerError {
    pub open spec fn view_spec(&self) -> DockerErrorView {
        match self {
            DockerError::Unavailable(m) => DockerErrorView::Unavailable(m@),
            DockerError::NotFound => DockerErrorView::NotFound,
            DockerError::Conflict => DockerErrorView::Conflict,
            DockerError::ImagePull { message, unauthorized } => DockerErrorView::ImagePull {
                message: message@,
                unauthorized: *unauthorized,
            },
            DockerError::Timeout => DockerErrorView::Timeout,
            DockerError::Other(m) => DockerErrorView::Other(m@),
        }
    }
}

pub fn map_err(context: &str, status_code: Option<u16>, msg: &str) -> (r: DockerError)
    ensures
        r.view_spec() == mapped_error(context@, status_code, msg@),
{
    match status_code {
        Some(404) => {
            return DockerError::NotFound;
        },
        Some(409) => {
            return DockerError::Conflict;
        },
        _ => {},
    }
    let m = chars_of(msg);
    let lower_s = to_lowercase(msg);
    let lower = chars_of(lower_s.as_str());
    if contains_str(m.as_slice(), "404") || contains_str(lower.as_slice(), "no such container") {
        DockerError::NotFound
    } else if contains_str(m.as_slice(), "409") || contains_str(lower.as_slice(), "conflict") {
        DockerError::Conflict
    } else if contains_str(lower.as_slice(), "error trying to connect") || contains_str(
        lower.as_slice(),
        "connection refused",
    ) || contains_str(lower.as_slice(), "no such file or directory") {
        DockerError::Unavailable(string_from(msg))
    } else if contains_str(lower.as_slice(), "timed out") || contains_str(
        lower.as_slice(),
        "timeout",
    ) {
        DockerError::Timeout
    } else {
        let mut s = string_from(context);
        push_str(&mut s, ": ");
        push_str(&mut s, msg);
        DockerError::Other(s)
    }
}

/// A failed pull, classified by its message.
pub fn pull_error(message: &str) -> (r: DockerError)
    ensures
        r.view_spec() == (DockerErrorView::ImagePull {
            message: message@,
            unauthorized: unauthorized_lower(unicode_lowercase(message@)),
        }),
{
    DockerError::ImagePull { message: string_from(message), unauthorized: looks_unauthorized(message) }
}

/// The first NVIDIA GPU device among the ids Docker discovered.
pub open spec fn nvidia_device_spec(ids: Seq<Option<Seq<char>>>) -> Option<Seq<char>> {
    if exists|i: int|
        0 <= i < ids.len() && (#[trigger] ids[i]) is Some && starts_with(
            ids[i]->0,
            "nvidia.com/gpu"@,
        ) {
        let i = choose|i: int|
            0 <= i < ids.len() && (#[trigger] ids[i]) is Some && starts_with(
                ids[i]->0,
                "nvidia.com/gpu"@,
            ) && forall|k: int|
                0 <= k < i ==> !((#[trigger] ids[k]) is Some && starts_with(
                    ids[k]->0,
                    "nvidia.com/gpu"@,
                ));
        ids[i]
    } else {
        None
    }
}

pub open spec fn opt_views(v: Seq<Option<String>>) -> Seq<Option<Seq<char>>> {
    v.map_values(
        |o: Option<String>|
            match o {
                Some(s) => Some(s@),
                None => None,
            },
    )
}

/// Picks the NVIDIA CDI device from the ids of Docker's discovered devices
/// (each device's `ID`, `Id` or `id`, where it has one).
pub fn first_nvidia_device(ids: &Vec<Option<String>>) -> (r: Option<String>)
    ensures
        match r {
            Some(s) => nvidia_device_spec(opt_views(ids@)) == Some(s@),
            None => nvidia_device_spec(opt_views(ids@)) is None,
        },
{
    let ghost vs = opt_views(ids@);
    let prefix = chars_of("nvidia.com/gpu");
    let n = ids.len();
    for i in 0..n
        invariant
            n == ids@.len(),
            vs == opt_views(ids@),
            prefix@ == "nvidia.com/gpu"@,
            forall|k: int|
                0 <= k < i ==> !((#[trigger] vs[k]) is Some && starts_with(
                    vs[k]->0,
                    "nvidia.com/gpu"@,
                )),
    {
        if let Some(id) = &ids[i] {
            let v = chars_of(id.as_str());
            assert(vs[i as int] == Some(id@));
            if starts_with_seq(v.as_slice(), prefix.as_slice()) {
                proof {
                    let w = choose|w: int|
                        0 <= w < vs.len() && (#[trigger] vs[w]) is Some && starts_with(
                            vs[w]->0,
                            "nvidia.com/gpu"@,
                        ) && forall|k: int|
                            0 <= k < w ==> !((#[trigger] vs[k]) is Some && starts_with(
                                vs[k]->0,
                                "nvidia.com/gpu"@,
                            ));
                    if w < i {
                    } else if w > i {
                        assert(!(vs[i as int] is Some && starts_with(vs[i as int]->0, "nvidia.com/gpu"@)));
                    }
                }
                return Some(string_of(v.as_slice()));
            }
        }
    }
    None
}

/// Whether a container already carries `name` (Docker reports names with
/// a leading `/`).
pub fn has_name(current: Option<&str>, name: &str) -> (b: bool)
    ensures
        b == (current matches Some(c) && strip_leading(c@, '/') == name@),
{
    match current {
        Some(c) => {
            let v = chars_of(c);
            let t = strip_leading_chars(v.as_slice(), '/');
            equals_str(t.as_slice(), name)
        },
        None => false,
    }
}

/// A health-check output as reported: trimmed, at most 800 characters.
pub open spec fn health_detail_spec(output: Seq<char>) -> Seq<char> {
    let t = trim(output);
    if t.len() <= 800 {
        t
    } else {
        t.take(800)
    }
}

pub fn health_detail(output: &str) -> (r: String)
    ensures
        r@ == health_detail_spec(output@),
{
    let v = chars_of(output);
    let t = trim_chars(v.as_slice());
    if t.len() <= 800 {
        string_of(t.as_slice())
    } else {
        let cut = crate::text::slice_chars(t.as_slice(), 0, 800);
        string_of(cut.as_slice())
    }
}

/// The daemon's GPU support, from whether it exposes the NVIDIA runtime
/// and which NVIDIA CDI device it discovered, if any.
pub fn gpu_support_decision(nvidia_runtime: bool, cdi_device: Option<&str>) -> (r: Result<
    String,
    DockerError,
>)
    ensures
        nvidia_runtime ==> (r matches Ok(m) && m@ == "Docker exposes the NVIDIA container runtime"@),
        !nvidia_runtime && cdi_device is Some ==> (r matches Ok(m) && m@
            == "Docker discovered NVIDIA CDI device "@ + cdi_device->0@),
        !nvidia_runtime && cdi_device is None ==> (r matches Err(e) && e.view_spec() == DockerErrorView::Other(
            "Docker has no NVIDIA runtime or discovered nvidia.com/gpu CDI device; install nvidia-container-toolkit, run `sudo nvidia-ctk runtime configure --runtime=docker`, then `sudo systemctl restart docker`"@,
        )),
{
    if nvidia_runtime {
        return Ok(string_from("Docker exposes the NVIDIA container runtime"));
    }
    match cdi_device {
        Some(d) => {
            let mut m = string_from("Docker discovered NVIDIA CDI device ");
            push_str(&mut m, d);
            Ok(m)
        },
        None => Err(DockerError::Other(string_from(
            "Docker has no NVIDIA runtime or discovered nvidia.com/gpu CDI device; install nvidia-container-toolkit, run `sudo nvidia-ctk runtime configure --runtime=docker`, then `sudo systemctl restart docker`",
        ))),
    }
}

} // verus!
