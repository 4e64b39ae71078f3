//! The host description: CPU, memory and accelerators, and the identity by
//! which two hosts count as the same hardware.
use vstd::prelude::*;
use vstd::relations::{sorted_by, total_ordering};
use crate::gguf::ModelMetadata;
use crate::text::{decimal, push_decimal};

verus! {

/// The host CPU.
#[derive(Debug)]
pub struct CpuInfo {
    pub model: String,
    pub architecture: String,
    pub logical_cores: usize,
    pub physical_cores: Option<usize>,
}

/// Host memory, in bytes.
#[derive(Debug, Clone, Copy, PartialEq, Eq, Structural)]
pub struct MemoryInfo {
    pub total_bytes: u64,
    pub available_bytes: u64,
    pub swap_total_bytes: u64,
    pub swap_free_bytes: u64,
}

/// What kind of accelerator a device is.
#[derive(Debug, Clone, Copy, PartialEq, Eq, Structural)]
pub enum AcceleratorKind {
    IntegratedGpu,
    DiscreteGpu,
    Npu,
    Unknown,
}

/// An accelerator found on the host.
#[derive(Debug)]
pub struct AcceleratorInfo {
    pub kind: AcceleratorKind,
    pub name: String,
    pub vendor: String,
    pub device_path: Option<String>,
    pub dedicated_memory_bytes: Option<u64>,
    pub available_memory_bytes: Option<u64>,
    pub telemetry_available: bool,
}

// ---------------------------------------------------------------------------
// Text order.
// ---------------------------------------------------------------------------

/// Lexicographic order of character sequences by code point (the order of
/// their UTF-8 bytes, which is how `String`s compare).
pub open spec fn text_le(a: Seq<char>, b: Seq<char>) -> bool
    decreases a.len(),
{
    if a.len() == 0 {
        true
    } else if b.len() == 0 {
        false
    } else if a[0] != b[0] {
        a[0] < b[0]
    } else {
        text_le(a.drop_first(), b.drop_first())
    }
}

/// [`text_le`] as a relation.
pub open spec fn text_order() -> spec_fn(Seq<char>, Seq<char>) -> bool {
    |a: Seq<char>, b: Seq<char>| text_le(a, b)
}

proof fn lemma_text_le_reflexive(a: Seq<char>)
    ensures
        text_le(a, a),
    decreases a.len(),
{
    if a.len() > 0 {
        lemma_text_le_reflexive(a.drop_first());
    }
}

proof fn lemma_text_le_antisymmetric(a: Seq<char>, b: Seq<char>)
    requires
        text_le(a, b),
        text_le(b, a),
    ensures
        a == b,
    decreases a.len(),
{
    if a.len() > 0 && b.len() > 0 {
        lemma_text_le_antisymmetric(a.drop_first(), b.drop_first());
        assert(a =~= seq![a[0]] + a.drop_first());
        assert(b =~= seq![b[0]] + b.drop_first());
    } else {
        assert(a =~= b);
    }
}

proof fn lemma_text_le_transitive(a: Seq<char>, b: Seq<char>, c: Seq<char>)
    requires
        text_le(a, b),
        text_le(b, c),
    ensures
        text_le(a, c),
    decreases a.len(),
{
    if a.len() > 0 && b.len() > 0 && c.len() > 0 {
        if a[0] == b[0] && b[0] == c[0] {
            lemma_text_le_transitive(a.drop_first(), b.drop_first(), c.drop_first());
        }
    }
}

proof fn lemma_text_le_connected(a: Seq<char>, b: Seq<char>)
    ensures
        text_le(a, b) || text_le(b, a),
    decreases a.len(),
{
    if a.len() > 0 && b.len() > 0 {
        if a[0] == b[0] {
            lemma_text_le_connected(a.drop_first(), b.drop_first());
        }
    }
}

/// The text order is a total order.
pub proof fn lemma_text_order_total()
    ensures
        total_ordering(text_order()),
{
    assert forall|a: Seq<char>| #[trigger] text_order()(a, a) by {
        lemma_text_le_reflexive(a);
    }
    assert forall|a: Seq<char>, b: Seq<char>|
        #[trigger] text_order()(a, b) && #[trigger] text_order()(b, a) implies a == b by {
        lemma_text_le_antisymmetric(a, b);
    }
    assert forall|a: Seq<char>, b: Seq<char>, c: Seq<char>|
        #[trigger] text_order()(a, b) && #[trigger] text_order()(b, c) implies text_order()(a, c) by {
        lemma_text_le_transitive(a, b, c);
    }
    assert forall|a: Seq<char>, b: Seq<char>|
        #[trigger] text_order()(a, b) || #[trigger] text_order()(b, a) by {
        lemma_text_le_connected(a, b);
    }
}

/// Compares two strings in text order.
fn text_le_exec(a: &String, b: &String) -> (r: bool)
    ensures
        r == text_le(a@, b@),
{
    let x = crate::text::chars_of(a.as_str());
    let y = crate::text::chars_of(b.as_str());
    let mut i: usize = 0;
    proof {
        assert(x@.skip(0) =~= x@);
        assert(y@.skip(0) =~= y@);
    }
    while i < x.len() && i < y.len() && x[i] == y[i]
        invariant
            0 <= i <= x@.len(),
            i <= y@.len(),
            x@ == a@,
            y@ == b@,
            text_le(a@, b@) == text_le(x@.skip(i as int), y@.skip(i as int)),
        decreases x@.len() - i,
    {
        proof {
            let xs = x@.skip(i as int);
            let ys = y@.skip(i as int);
            assert(xs.drop_first() =~= x@.skip(i + 1));
            assert(ys.drop_first() =~= y@.skip(i + 1));
        }
        i = i + 1;
    }
    if i == x.len() {
        true
    } else if i == y.len() {
        false
    } else {
        proof {
            assert(x@.skip(i as int)[0] == x@[i as int]);
            assert(y@.skip(i as int)[0] == y@[i as int]);
        }
        x[i] < y[i]
    }
}

/// The views of a list of strings.
pub open spec fn texts(v: Seq<String>) -> Seq<Seq<char>> {
    v.map_values(|s: String| s@)
}

/// Sorts strings into text order.
pub fn sort_texts(items: Vec<String>) -> (r: Vec<String>)
    ensures
        sorted_by(texts(r@), text_order()),
        texts(r@).to_multiset() == texts(items@).to_multiset(),
{
    broadcast use vstd::seq_lib::group_to_multiset_ensures;

    proof {
        lemma_text_order_total();
    }
    let mut out: Vec<String> = Vec::new();
    let mut i: usize = 0;
    proof {
        assert(texts(out@) =~= texts(items@.take(0)));
    }
    while i < items.len()
        invariant
            0 <= i <= items@.len(),
            total_ordering(text_order()),
            sorted_by(texts(out@), text_order()),
            texts(out@).to_multiset() == texts(items@.take(i as int)).to_multiset(),
        decreases items@.len() - i,
    {
        let x = items[i].clone();
        let mut pos: usize = 0;
        while pos < out.len() && text_le_exec(&out[pos], &x)
            invariant
                0 <= pos <= out@.len(),
                forall|j: int| 0 <= j < pos ==> text_le(#[trigger] out@[j]@, x@),
            decreases out@.len() - pos,
        {
            pos = pos + 1;
        }
        let ghost before = texts(out@);
        out.insert(pos, x);
        proof {
            assert(texts(out@) =~= before.insert(pos as int, x@));
            vstd::seq_lib::to_multiset_insert(before, pos as int, x@);
            assert(texts(items@.take(i + 1)) =~= texts(items@.take(i as int)).push(x@));
            vstd::seq_lib::to_multiset_build(texts(items@.take(i as int)), x@);
            let after = texts(out@);
            assert forall|a: int, b: int| 0 <= a < b < after.len() implies #[trigger] text_order()(
                after[a],
                after[b],
            ) by {
                if b < pos {
                    assert(text_order()(before[a], before[b]));
                } else if a < pos && b == pos {
                    assert(text_le(before[a], x@));
                } else if a < pos {
                    assert(text_order()(before[a], before[b - 1]));
                } else if a == pos {
                    if pos < before.len() {
                        assert(!text_le(before[pos as int], x@));
                        lemma_text_le_connected(before[pos as int], x@);
                        if b - 1 > pos {
                            assert(text_order()(before[pos as int], before[b - 1]));
                            lemma_text_le_transitive(x@, before[pos as int], before[b - 1]);
                        }
                    }
                } else {
                    assert(text_order()(before[a - 1], before[b - 1]));
                }
            }
        }
        i = i + 1;
    }
    proof {
        assert(items@.take(items@.len() as int) =~= items@);
    }
    out
}

// ---------------------------------------------------------------------------
// Hardware identity.
// ---------------------------------------------------------------------------

/// The name of an accelerator kind.
pub open spec fn kind_name(kind: AcceleratorKind) -> Seq<char> {
    match kind {
        AcceleratorKind::IntegratedGpu => "IntegratedGpu"@,
        AcceleratorKind::DiscreteGpu => "DiscreteGpu"@,
        AcceleratorKind::Npu => "Npu"@,
        AcceleratorKind::Unknown => "Unknown"@,
    }
}

/// `Some(<n>)` or `None`.
pub open spec fn optional_bytes_text(v: Option<u64>) -> Seq<char> {
    match v {
        Some(n) => "Some("@ + decimal(n as nat) + ")"@,
        None => "None"@,
    }
}

/// How an accelerator enters the hardware identity:
/// `<kind>|<vendor>|<name>|<dedicated memory>`.
pub open spec fn accelerator_identity(a: AcceleratorInfo) -> Seq<char> {
    kind_name(a.kind) + "|"@ + a.vendor@ + "|"@ + a.name@ + "|"@ + optional_bytes_text(
        a.dedicated_memory_bytes,
    )
}

/// The identities of a list of accelerators, in order.
pub open spec fn accelerator_identities(accelerators: Seq<AcceleratorInfo>) -> Seq<Seq<char>> {
    accelerators.map_values(|a: AcceleratorInfo| accelerator_identity(a))
}

/// The identity text of one accelerator.
pub fn accelerator_identity_text(a: &AcceleratorInfo) -> (r: String)
    ensures
        r@ == accelerator_identity(*a),
{
    let kind = match a.kind {
        AcceleratorKind::IntegratedGpu => "IntegratedGpu",
        AcceleratorKind::DiscreteGpu => "DiscreteGpu",
        AcceleratorKind::Npu => "Npu",
        AcceleratorKind::Unknown => "Unknown",
    };
    let mut text = kind.to_owned().concat("|").concat(a.vendor.as_str()).concat("|").concat(
        a.name.as_str(),
    ).concat("|");
    match a.dedicated_memory_bytes {
        Some(n) => {
            text = text.concat("Some(");
            push_decimal(&mut text, n);
            text = text.concat(")");
        },
        None => {
            text = text.concat("None");
        },
    }
    assert(text@ =~= accelerator_identity(*a));
    text
}

/// What identifies a host's hardware: the CPU model, architecture and core
/// counts, and the accelerator identities in text order.
#[derive(Debug)]
pub struct HardwareIdentity {
    pub cpu_model: String,
    pub architecture: String,
    pub logical_cores: usize,
    pub physical_cores: Option<usize>,
    pub accelerators: Vec<String>,
}

/// The mathematical form of a hardware identity.
pub struct HardwareIdentityView {
    pub cpu_model: Seq<char>,
    pub architecture: Seq<char>,
    pub logical_cores: usize,
    pub physical_cores: Option<usize>,
    pub accelerators: Seq<Seq<char>>,
}

impl View for HardwareIdentity {
    type V = HardwareIdentityView;

    open spec fn view(&self) -> HardwareIdentityView {
        HardwareIdentityView {
            cpu_model: self.cpu_model@,
            architecture: self.architecture@,
            logical_cores: self.logical_cores,
            physical_cores: self.physical_cores,
            accelerators: texts(self.accelerators@),
        }
    }
}

/// The identity of a host with this CPU and these accelerators.
pub open spec fn spec_hardware_identity(cpu: CpuInfo, accelerators: Seq<AcceleratorInfo>) -> HardwareIdentityView {
    HardwareIdentityView {
        cpu_model: cpu.model@,
        architecture: cpu.architecture@,
        logical_cores: cpu.logical_cores,
        physical_cores: cpu.physical_cores,
        accelerators: accelerator_identities(accelerators).sort_by(text_order()),
    }
}

/// Computes the hardware identity of a host.
pub fn hardware_identity(cpu: &CpuInfo, accelerators: &Vec<AcceleratorInfo>) -> (r: HardwareIdentity)
    ensures
        r@ == spec_hardware_identity(*cpu, accelerators@),
{
    let mut ids: Vec<String> = Vec::new();
    let mut i: usize = 0;
    while i < accelerators.len()
        invariant
            0 <= i <= accelerators@.len(),
            texts(ids@) =~= accelerator_identities(accelerators@.take(i as int)),
        decreases accelerators@.len() - i,
    {
        let text = accelerator_identity_text(&accelerators[i]);
        let ghost before = ids@;
        ids.push(text);
        proof {
            assert(texts(ids@) =~= texts(before).push(text@));
            assert(accelerators@.take(i + 1) =~= accelerators@.take(i as int).push(accelerators@[i as int]));
            assert(accelerator_identities(accelerators@.take(i + 1)) =~= accelerator_identities(
                accelerators@.take(i as int),
            ).push(accelerator_identity(accelerators@[i as int])));
        }
        i = i + 1;
    }
    proof {
        assert(accelerators@.take(accelerators@.len() as int) =~= accelerators@);
    }
    let sorted = sort_texts(ids);
    proof {
        let all = accelerator_identities(accelerators@);
        lemma_text_order_total();
        all.lemma_sort_by_ensures(text_order());
        vstd::seq_lib::lemma_sorted_unique(texts(sorted@), all.sort_by(text_order()), text_order());
    }
    HardwareIdentity {
        cpu_model: cpu.model.clone(),
        architecture: cpu.architecture.clone(),
        logical_cores: cpu.logical_cores,
        physical_cores: cpu.physical_cores,
        accelerators: sorted,
    }
}

/// Whether two hardware identities are the same.
pub fn same_hardware_identity(a: &HardwareIdentity, b: &HardwareIdentity) -> (r: bool)
    ensures
        r == (a@ == b@),
{
    if !(a.cpu_model == b.cpu_model && a.architecture == b.architecture && a.logical_cores
        == b.logical_cores && a.physical_cores == b.physical_cores) {
        return false;
    }
    if a.accelerators.len() != b.accelerators.len() {
        assert(a@.accelerators.len() != b@.accelerators.len());
        return false;
    }
    let mut i: usize = 0;
    while i < a.accelerators.len()
        invariant
            0 <= i <= a.accelerators@.len(),
            a.accelerators@.len() == b.accelerators@.len(),
            forall|j: int| 0 <= j < i ==> a@.accelerators[j] == b@.accelerators[j],
        decreases a.accelerators@.len() - i,
    {
        if a.accelerators[i] != b.accelerators[i] {
            assert(a@.accelerators[i as int] != b@.accelerators[i as int]);
            return false;
        }
        i = i + 1;
    }
    assert(a@.accelerators =~= b@.accelerators);
    true
}

/// Two hosts have the same hardware identity exactly when their CPUs agree
/// in model, architecture and core counts and they hold the same
/// accelerators (by kind, vendor, name and dedicated memory), in whatever
/// order they were discovered.
pub proof fn law_hardware_identity_ignores_order(
    cpu_a: CpuInfo,
    accelerators_a: Seq<AcceleratorInfo>,
    cpu_b: CpuInfo,
    accelerators_b: Seq<AcceleratorInfo>,
)
    ensures
        spec_hardware_identity(cpu_a, accelerators_a) == spec_hardware_identity(cpu_b, accelerators_b)
            <==> {
            &&& cpu_a.model@ == cpu_b.model@
            &&& cpu_a.architecture@ == cpu_b.architecture@
            &&& cpu_a.logical_cores == cpu_b.logical_cores
            &&& cpu_a.physical_cores == cpu_b.physical_cores
            &&& accelerator_identities(accelerators_a).to_multiset() == accelerator_identities(
                accelerators_b,
            ).to_multiset()
        },
{
    let ia = accelerator_identities(accelerators_a);
    let ib = accelerator_identities(accelerators_b);
    lemma_text_order_total();
    ia.lemma_sort_by_ensures(text_order());
    ib.lemma_sort_by_ensures(text_order());
    if ia.to_multiset() == ib.to_multiset() {
        vstd::seq_lib::lemma_sorted_unique(ia.sort_by(text_order()), ib.sort_by(text_order()), text_order());
    }
}

/// Whether the recorded model is the same model as the current one: same
/// file size, format version, architecture, layer count, embedding length
/// and attention head counts.
pub open spec fn spec_model_identity_matches(current: ModelMetadata, stored: ModelMetadata) -> bool {
    &&& current.file_size_bytes == stored.file_size_bytes
    &&& current.gguf_version == stored.gguf_version
    &&& current.architecture@ == stored.architecture@
    &&& current.block_count == stored.block_count
    &&& current.embedding_length == stored.embedding_length
    &&& current.attention_head_count == stored.attention_head_count
    &&& current.attention_head_count_kv == stored.attention_head_count_kv
}

/// Compares the identity of two models.
pub fn model_identity_matches(current: &ModelMetadata, stored: &ModelMetadata) -> (r: bool)
    ensures
        r == spec_model_identity_matches(*current, *stored),
{
    current.file_size_bytes == stored.file_size_bytes && current.gguf_version == stored.gguf_version
        && current.architecture == stored.architecture && current.block_count == stored.block_count
        && current.embedding_length == stored.embedding_length && current.attention_head_count
        == stored.attention_head_count && current.attention_head_count_kv
        == stored.attention_head_count_kv
}

} // verus!
