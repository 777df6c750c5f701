//! The AF_XDP redirect program of a network interface.
//!
//! Required symbols of a BPF object (looked up by string name):
//! - `quac_xdp`: `BPF_PROG_TYPE_XDP` entry point.
//! - `BOUND_PORTS`: port membership. Userspace inserts/removes
//!   on bind/drop; the program checks membership before redirecting.
//! - `XSKMAP`: `BPF_MAP_TYPE_XSKMAP`. Userspace inserts the AF_XDP fd at
//!   the socket's receive queue after `bind(2)` succeeds.
//!
//! One program per NIC; multiple sockets share it and add their own
//! entries to its maps. The first to ask for an interface decides
//! which bytes are loaded; later ones must supply matching bytes
//! (mismatches error rather than silently reuse). The program is
//! never unloaded.

use aya::programs::XdpFlags;
use std::collections::hash_map::DefaultHasher;
use std::collections::{BTreeSet, HashMap};
use std::hash::Hasher;
use vstd::prelude::*;
use vstd::std_specs::hash::DefaultHasherAdditionalSpecFns;
use vstd::string::*;

verus! {

broadcast use {
    vstd::slice::group_slice_axioms,
    vstd::std_specs::hash::group_hash_axioms,
    vstd::std_specs::btree::group_btree_axioms,
};

/// XDP attach mode. `Default` lets the kernel pick. `Skb` forces generic
/// XDP (works everywhere, slowest). `Drv` forces native (required for
/// zero-copy). `Hw` offloads to NIC hardware.
#[derive(Debug, Clone, Copy, PartialEq, Eq, Structural)]
pub enum AttachMode {
    Default,
    Skb,
    Drv,
    Hw,
}

/// `XdpFlags::default().bits()` of the `aya` crate: no flag.
#[verifier::external_body]
fn default_flags() -> (bits: u32)
    ensures
        bits == 0,
{
    XdpFlags::default().bits()
}

/// `XdpFlags::SKB_MODE.bits()` of the `aya` crate: the kernel's `XDP_FLAGS_SKB_MODE`.
#[verifier::external_body]
fn skb_flags() -> (bits: u32)
    ensures
        bits == 2,
{
    XdpFlags::SKB_MODE.bits()
}

/// `XdpFlags::DRV_MODE.bits()` of the `aya` crate: the kernel's `XDP_FLAGS_DRV_MODE`.
#[verifier::external_body]
fn drv_flags() -> (bits: u32)
    ensures
        bits == 4,
{
    XdpFlags::DRV_MODE.bits()
}

/// `XdpFlags::HW_MODE.bits()` of the `aya` crate: the kernel's `XDP_FLAGS_HW_MODE`.
#[verifier::external_body]
fn hw_flags() -> (bits: u32)
    ensures
        bits == 8,
{
    XdpFlags::HW_MODE.bits()
}

impl AttachMode {
    /// The attach flags.
    pub fn flags(self) -> (bits: u32)
        ensures
            bits == match self {
                AttachMode::Default => 0u32,
                AttachMode::Skb => 2u32,
                AttachMode::Drv => 4u32,
                AttachMode::Hw => 8u32,
            },
    {
        match self {
            AttachMode::Default => default_flags(),
            AttachMode::Skb => skb_flags(),
            AttachMode::Drv => drv_flags(),
            AttachMode::Hw => hw_flags(),
        }
    }
}

/// What is hashed of a BPF object: its length and its bytes.
pub open spec fn program_hash(bytes: Seq<u8>) -> u64 {
    DefaultHasher::spec_finish(
        seq![vstd::bytes::spec_u64_to_le_bytes(bytes.len() as u64), bytes],
    )
}

/// Non-cryptographic hash for detecting accidentally-mismatched BPF objects.
pub fn hash_program_bytes(bytes: &[u8]) -> (hash: u64)
    ensures
        hash == program_hash(bytes@),
{
    let mut hasher = DefaultHasher::new();
    let len: Vec<u8> = vstd::bytes::u64_to_le_bytes(bytes.len() as u64);
    hasher.write(len.as_slice());
    hasher.write(bytes);
    assert(hasher@ =~= seq![vstd::bytes::spec_u64_to_le_bytes(bytes@.len() as u64), bytes@]);
    hasher.finish()
}

/// What to do about the program of an interface.
#[derive(Debug, Clone, Copy, PartialEq, Eq, Structural)]
pub enum ProgramChoice {
    /// None is attached yet: load and attach, then note it with this hash.
    Load { hash: u64 },
    /// The attached one has the same bytes.
    Reuse,
    /// The attached one has other bytes.
    Mismatch { existing: u64, wanted: u64 },
}

/// The programs that are attached: one per interface, for the lifetime of the process.
pub struct ProgramRegistry {
    hashes: HashMap<u32, u64>,
}

impl View for ProgramRegistry {
    type V = Map<u32, u64>;

    closed spec fn view(&self) -> Map<u32, u64> {
        self.hashes@
    }
}

/// The choice for an interface.
pub open spec fn chosen(attached: Map<u32, u64>, if_index: u32, wanted: u64) -> ProgramChoice {
    if !attached.dom().contains(if_index) {
        ProgramChoice::Load { hash: wanted }
    } else if attached[if_index] == wanted {
        ProgramChoice::Reuse
    } else {
        ProgramChoice::Mismatch { existing: attached[if_index], wanted }
    }
}

impl ProgramRegistry {
    pub fn new() -> (registry: ProgramRegistry)
        ensures
            registry@ == Map::<u32, u64>::empty(),
    {
        ProgramRegistry { hashes: HashMap::new() }
    }

    /// Get the existing program for `if_index`, or load and attach a new one.
    /// `program_bytes = None` resolves to the embedded default. The **first**
    /// call per `if_index` decides which BPF object is loaded; later calls
    /// must supply bytes with a matching content hash. The
    /// mismatch check catches deployment bugs where two consumers
    /// disagree about which program runs.
    pub fn get_or_load(&self, if_index: u32, program_bytes: Option<&[u8]>, embedded: &[u8]) -> (choice:
        ProgramChoice)
        ensures
            choice == chosen(
                self@,
                if_index,
                program_hash(
                    match program_bytes {
                        Some(bytes) => bytes@,
                        None => embedded@,
                    },
                ),
            ),
    {
        let bytes: &[u8] = match program_bytes {
            Some(bytes) => bytes,
            None => embedded,
        };
        self.choose_by_hash(if_index, hash_program_bytes(bytes))
    }

    /// The choice for a program whose bytes have the hash `wanted`.
    pub fn choose_by_hash(&self, if_index: u32, wanted: u64) -> (choice: ProgramChoice)
        ensures
            choice == chosen(self@, if_index, wanted),
    {
        match self.hashes.get(&if_index) {
            Some(existing) => if *existing == wanted {
                ProgramChoice::Reuse
            } else {
                ProgramChoice::Mismatch { existing: *existing, wanted }
            },
            None => ProgramChoice::Load { hash: wanted },
        }
    }

    /// Notes that a program with this hash was attached to an interface.
    pub fn attached(&mut self, if_index: u32, hash: u64)
        ensures
            final(self)@ == old(self)@.insert(if_index, hash),
    {
        self.hashes.insert(if_index, hash);
    }
}

/// The first program attached to an interface decides: asking for it again reuses it, asking for
/// another one is refused, and other interfaces are not affected.
pub proof fn law_first_program_decides(
    attached: Map<u32, u64>,
    if_index: u32,
    first: u64,
    other_index: u32,
    wanted: u64,
)
    requires
        chosen(attached, if_index, first) == (ProgramChoice::Load { hash: first }),
    ensures
        ({
            let after = attached.insert(if_index, first);
            &&& chosen(after, if_index, first) is Reuse
            &&& wanted != first ==> chosen(after, if_index, wanted) == (ProgramChoice::Mismatch {
                existing: first,
                wanted,
            })
            &&& other_index != if_index ==> chosen(after, other_index, wanted) == chosen(
                attached,
                other_index,
                wanted,
            )
        }),
{
}

/// A step of loading a program. The maps are type-checked eagerly, so a contract violation
/// surfaces before anything is attached.
#[derive(Debug, Clone, Copy, PartialEq, Eq, Structural)]
pub enum LoadStep {
    Parse,
    FindBoundPorts,
    CheckBoundPorts,
    FindXskmap,
    CheckXskmap,
    FindProgram,
    CheckProgram,
    Load,
    Attach,
    Attached,
    Failed,
}

impl LoadStep {
    /// How many steps come before.
    pub open spec fn rank(self) -> int {
        match self {
            LoadStep::Parse => 0,
            LoadStep::FindBoundPorts => 1,
            LoadStep::CheckBoundPorts => 2,
            LoadStep::FindXskmap => 3,
            LoadStep::CheckXskmap => 4,
            LoadStep::FindProgram => 5,
            LoadStep::CheckProgram => 6,
            LoadStep::Load => 7,
            LoadStep::Attach => 8,
            LoadStep::Attached => 9,
            LoadStep::Failed => -1,
        }
    }

    /// The step after this one.
    pub fn next(self, ok: bool) -> (step: LoadStep)
        ensures
            self is Attached || self is Failed ==> step == self,
            !(self is Attached || self is Failed) && !ok ==> step is Failed,
            !(self is Attached || self is Failed) && ok ==> step.rank() == self.rank() + 1,
    {
        match self {
            LoadStep::Attached => LoadStep::Attached,
            LoadStep::Failed => LoadStep::Failed,
            _ => if !ok {
                LoadStep::Failed
            } else {
                match self {
                    LoadStep::Parse => LoadStep::FindBoundPorts,
                    LoadStep::FindBoundPorts => LoadStep::CheckBoundPorts,
                    LoadStep::CheckBoundPorts => LoadStep::FindXskmap,
                    LoadStep::FindXskmap => LoadStep::CheckXskmap,
                    LoadStep::CheckXskmap => LoadStep::FindProgram,
                    LoadStep::FindProgram => LoadStep::CheckProgram,
                    LoadStep::CheckProgram => LoadStep::Load,
                    LoadStep::Load => LoadStep::Attach,
                    _ => LoadStep::Attached,
                }
            },
        }
    }

    /// What to say when something is not found.
    pub fn missing_message(self) -> (text: Option<&'static str>)
        ensures
            self is FindBoundPorts ==> (text matches Some(t) && t@
                == "eBPF object missing required map `BOUND_PORTS` (see crate::program docs for contract)"@),
            self is FindXskmap ==> (text matches Some(t) && t@
                == "eBPF object missing required map `XSKMAP` (see crate::program docs for contract)"@),
            self is FindProgram ==> (text matches Some(t) && t@
                == "eBPF object has no `quac_xdp` program (see crate::program docs for contract)"@),
            text is Some <==> self is FindBoundPorts || self is FindXskmap || self is FindProgram,
    {
        match self {
            LoadStep::FindBoundPorts => Some(
                "eBPF object missing required map `BOUND_PORTS` (see crate::program docs for contract)",
            ),
            LoadStep::FindXskmap => Some(
                "eBPF object missing required map `XSKMAP` (see crate::program docs for contract)",
            ),
            LoadStep::FindProgram => Some(
                "eBPF object has no `quac_xdp` program (see crate::program docs for contract)",
            ),
            _ => None,
        }
    }
}

/// What became of an operation on a map of the program.
#[derive(Debug, Clone, Copy, PartialEq, Eq, Structural)]
pub enum MapOutcome {
    Missing,
    WrongType,
    Refused,
    Done,
}

/// Why an operation on a map failed.
#[derive(Debug, Clone, Copy, PartialEq, Eq, Structural)]
pub enum MapError {
    Missing,
    WrongType,
    Refused,
}

/// What is known of a loaded and attached program: the ports and queues of its sockets.
pub struct XdpProgram {
    if_index: u32,
    program_hash: u64,
    bound_ports: BTreeSet<u16>,
    registered_queues: BTreeSet<u32>,
}

impl XdpProgram {
    pub closed spec fn spec_if_index(&self) -> u32 {
        self.if_index
    }

    pub closed spec fn spec_hash(&self) -> u64 {
        self.program_hash
    }

    /// The ports whose packets are eligible for redirection.
    pub closed spec fn ports(&self) -> Set<u16> {
        self.bound_ports@
    }

    /// The receive queues that have a socket.
    pub closed spec fn queues(&self) -> Set<u32> {
        self.registered_queues@
    }

    /// A program just attached.
    pub fn new(if_index: u32, program_hash: u64) -> (program: XdpProgram)
        ensures
            program.spec_if_index() == if_index,
            program.spec_hash() == program_hash,
            program.ports() == Set::<u16>::empty(),
            program.queues() == Set::<u32>::empty(),
    {
        XdpProgram {
            if_index,
            program_hash,
            bound_ports: BTreeSet::new(),
            registered_queues: BTreeSet::new(),
        }
    }

    /// Notes the insertion of `port` into `BOUND_PORTS`. Future UDP packets with
    /// that destination port are eligible for redirection.
    pub fn bind_port(&mut self, port: u16, outcome: MapOutcome) -> (result: Result<(), MapError>)
        ensures
            result == match outcome {
                MapOutcome::Missing => Err::<(), MapError>(MapError::Missing),
                MapOutcome::WrongType => Err::<(), MapError>(MapError::WrongType),
                MapOutcome::Refused => Err::<(), MapError>(MapError::Refused),
                MapOutcome::Done => Ok::<(), MapError>(()),
            },
            final(self).ports() == (if outcome is Done {
                old(self).ports().insert(port)
            } else {
                old(self).ports()
            }),
            final(self).queues() == old(self).queues(),
            final(self).spec_if_index() == old(self).spec_if_index(),
            final(self).spec_hash() == old(self).spec_hash(),
    {
        match outcome {
            MapOutcome::Missing => Err(MapError::Missing),
            MapOutcome::WrongType => Err(MapError::WrongType),
            MapOutcome::Refused => Err(MapError::Refused),
            MapOutcome::Done => {
                self.bound_ports.insert(port);
                Ok(())
            },
        }
    }

    /// Reverse of [`bind_port`](Self::bind_port). Idempotent: the map refuses a port that it does
    /// not hold, which counts as success.
    pub fn unbind_port(&mut self, port: u16, outcome: MapOutcome) -> (result: Result<(), MapError>)
        ensures
            result == match outcome {
                MapOutcome::Missing => Err::<(), MapError>(MapError::Missing),
                MapOutcome::WrongType => Err::<(), MapError>(MapError::WrongType),
                MapOutcome::Refused => Ok::<(), MapError>(()),
                MapOutcome::Done => Ok::<(), MapError>(()),
            },
            final(self).ports() == (if result is Ok {
                old(self).ports().remove(port)
            } else {
                old(self).ports()
            }),
            final(self).queues() == old(self).queues(),
            final(self).spec_if_index() == old(self).spec_if_index(),
            final(self).spec_hash() == old(self).spec_hash(),
    {
        match outcome {
            MapOutcome::Missing => Err(MapError::Missing),
            MapOutcome::WrongType => Err(MapError::WrongType),
            _ => {
                self.bound_ports.remove(&port);
                Ok(())
            },
        }
    }

    /// Notes that `XSKMAP[queue_id]` was set, so that redirected packets of that queue land on
    /// its socket.
    pub fn register_socket(&mut self, queue_id: u32, outcome: MapOutcome) -> (result: Result<
        (),
        MapError,
    >)
        ensures
            result == match outcome {
                MapOutcome::Missing => Err::<(), MapError>(MapError::Missing),
                MapOutcome::WrongType => Err::<(), MapError>(MapError::WrongType),
                MapOutcome::Refused => Err::<(), MapError>(MapError::Refused),
                MapOutcome::Done => Ok::<(), MapError>(()),
            },
            final(self).queues() == (if outcome is Done {
                old(self).queues().insert(queue_id)
            } else {
                old(self).queues()
            }),
            final(self).ports() == old(self).ports(),
            final(self).spec_if_index() == old(self).spec_if_index(),
            final(self).spec_hash() == old(self).spec_hash(),
    {
        match outcome {
            MapOutcome::Missing => Err(MapError::Missing),
            MapOutcome::WrongType => Err(MapError::WrongType),
            MapOutcome::Refused => Err(MapError::Refused),
            MapOutcome::Done => {
                self.registered_queues.insert(queue_id);
                Ok(())
            },
        }
    }

    /// Reverse of [`register_socket`](Self::register_socket). Drops local tracking only: the
    /// kernel clears the map's entry when the socket closes.
    pub fn unregister_socket(&mut self, queue_id: u32)
        ensures
            final(self).queues() == old(self).queues().remove(queue_id),
            final(self).ports() == old(self).ports(),
            final(self).spec_if_index() == old(self).spec_if_index(),
            final(self).spec_hash() == old(self).spec_hash(),
    {
        self.registered_queues.remove(&queue_id);
    }

    pub fn if_index(&self) -> (if_index: u32)
        ensures
            if_index == self.spec_if_index(),
    {
        self.if_index
    }

    /// Whether a port is bound.
    pub fn is_bound(&self, port: u16) -> (bound: bool)
        ensures
            bound == self.ports().contains(port),
    {
        self.bound_ports.contains(&port)
    }

    /// Whether a queue has a socket.
    pub fn is_registered(&self, queue_id: u32) -> (registered: bool)
        ensures
            registered == self.queues().contains(queue_id),
    {
        self.registered_queues.contains(&queue_id)
    }
}

/// Whether `text` holds `part`.
pub open spec fn has_part(text: Seq<char>, part: Seq<char>) -> bool {
    exists|at: int| part_at(text, part, at)
}

/// Whether `part` stands at a place in `text`.
pub open spec fn part_at(text: Seq<char>, part: Seq<char>, at: int) -> bool {
    0 <= at && at + part.len() <= text.len() && text.subrange(at, at + part.len()) == part
}

/// Whether a message in lower case looks permission-related.
pub open spec fn permission_related(lower: Seq<char>) -> bool {
    ||| has_part(lower, "permission denied"@)
    ||| has_part(lower, "operation not permitted"@)
    ||| has_part(lower, "eperm"@)
    ||| has_part(lower, "eacces"@)
}

/// The characters of a string.
fn chars_of(text: &str) -> (chars: Vec<char>)
    ensures
        chars@ == text@,
{
    let n: usize = text.unicode_len();
    let mut chars: Vec<char> = Vec::new();
    let mut i: usize = 0;
    while i < n
        invariant
            i <= n == text@.len(),
            chars@ == text@.take(i as int),
        decreases n - i,
    {
        chars.push(text.get_char(i));
        i += 1;
        assert(chars@ =~= text@.take(i as int));
    }
    assert(text@.take(n as int) =~= text@);
    chars
}

/// Whether `part` stands in `text` at a place.
fn matches_at(text: &[char], part: &[char], at: usize) -> (yes: bool)
    requires
        at + part@.len() <= text@.len(),
    ensures
        yes == part_at(text@, part@, at as int),
{
    let mut i: usize = 0;
    while i < part.len()
        invariant
            i <= part@.len(),
            at + part@.len() <= text@.len(),
            text@.len() == text.len(),
            text@.subrange(at as int, at + i) == part@.take(i as int),
        decreases part@.len() - i,
    {
        assert(at + i < text.len());
        if text[at + i] != part[i] {
            assert(text@.subrange(at as int, at + part@.len())[i as int] != part@[i as int]);
            return false;
        }
        i += 1;
        assert(text@.subrange(at as int, at + i) =~= part@.take(i as int));
    }
    assert(part@.take(part@.len() as int) =~= part@);
    true
}

/// Whether `text` holds `part`.
fn contains_part(text: &[char], part: &str) -> (yes: bool)
    ensures
        yes == has_part(text@, part@),
{
    let needle: Vec<char> = chars_of(part);
    if needle.len() > text.len() {
        return false;
    }
    let last: usize = text.len() - needle.len();
    let mut at: usize = 0;
    loop
        invariant
            at <= last,
            last + needle@.len() == text@.len(),
            needle@ == part@,
            forall|k: int| 0 <= k < at ==> !part_at(text@, part@, k),
        decreases last - at,
    {
        if matches_at(text, needle.as_slice(), at) {
            assert(part_at(text@, part@, at as int));
            return true;
        }
        if at == last {
            return false;
        }
        at += 1;
    }
}

/// The hint appended to a message about missing permissions.
pub open spec fn permission_hint() -> Seq<char> {
    "\nhint: loading XDP / AF_XDP requires CAP_BPF + CAP_PERFMON (kernel >= 5.8) or CAP_SYS_ADMIN. Run as root, or grant caps with: `sudo setcap cap_bpf,cap_perfmon,cap_net_raw=eip <binary>`."@
}

/// A text in lower case.
pub uninterp spec fn lowercase(text: Seq<char>) -> Seq<char>;

/// `str::to_lowercase`: the text in lower case, as Unicode defines it.
#[verifier::external_body]
fn to_lowercase(text: &str) -> (lower: String)
    ensures
        lower@ == lowercase(text@),
{
    text.to_lowercase()
}

/// The message for a failure whose text is `msg`, and `lower` in lower case: permission-related
/// ones get a hint.
pub fn with_permission_hint(msg: &str, lower: &str) -> (text: String)
    ensures
        text@ == if permission_related(lower@) {
            msg@ + permission_hint()
        } else {
            msg@
        },
{
    let chars: Vec<char> = chars_of(lower);
    let mut text: String = String::from_str(msg);
    if contains_part(chars.as_slice(), "permission denied") || contains_part(
        chars.as_slice(),
        "operation not permitted",
    ) || contains_part(chars.as_slice(), "eperm") || contains_part(chars.as_slice(), "eacces") {
        text.append(
            "\nhint: loading XDP / AF_XDP requires CAP_BPF + CAP_PERFMON (kernel >= 5.8) or CAP_SYS_ADMIN. Run as root, or grant caps with: `sudo setcap cap_bpf,cap_perfmon,cap_net_raw=eip <binary>`.",
        );
    }
    text
}

/// The message for a failure to load: appends a CAP_BPF / CAP_PERFMON hint when the message
/// looks permission-related.
pub fn load_err(msg: &str) -> (text: String)
    ensures
        text@ == if permission_related(lowercase(msg@)) {
            msg@ + permission_hint()
        } else {
            msg@
        },
{
    let lower: String = to_lowercase(msg);
    with_permission_hint(msg, lower.as_str())
}

/// A program is attached only when everything else has succeeded: it was parsed, each map was
/// found and then checked, and so was the program, and it was loaded.
pub proof fn law_attach_comes_last()
    ensures
        LoadStep::Parse.rank() == 0,
        LoadStep::Parse.rank() < LoadStep::FindBoundPorts.rank()
            < LoadStep::CheckBoundPorts.rank(),
        LoadStep::Parse.rank() < LoadStep::FindXskmap.rank() < LoadStep::CheckXskmap.rank(),
        LoadStep::Parse.rank() < LoadStep::FindProgram.rank() < LoadStep::CheckProgram.rank(),
        LoadStep::CheckBoundPorts.rank() < LoadStep::Load.rank(),
        LoadStep::CheckXskmap.rank() < LoadStep::Load.rank(),
        LoadStep::CheckProgram.rank() < LoadStep::Load.rank(),
        LoadStep::Load.rank() + 1 == LoadStep::Attach.rank(),
        LoadStep::Attach.rank() + 1 == LoadStep::Attached.rank() == 9,
        LoadStep::Failed.rank() < 0,
{
}

/// A message looks permission-related wherever in it one of four phrases stands, and only then.
pub proof fn law_phrases_of_missing_permissions(before: Seq<char>, after: Seq<char>, text: Seq<char>)
    ensures
        permission_related(before + "permission denied"@ + after),
        permission_related(before + "operation not permitted"@ + after),
        permission_related(before + "eperm"@ + after),
        permission_related(before + "eacces"@ + after),
        permission_related(text) ==> exists|a: Seq<char>, part: Seq<char>, b: Seq<char>|
            (part == "permission denied"@ || part == "operation not permitted"@ || part
                == "eperm"@ || part == "eacces"@) && text == #[trigger] (a + part + b),
{
    lemma_part_in_the_middle(before, "permission denied"@, after);
    lemma_part_in_the_middle(before, "operation not permitted"@, after);
    lemma_part_in_the_middle(before, "eperm"@, after);
    lemma_part_in_the_middle(before, "eacces"@, after);
    if permission_related(text) {
        let part = if has_part(text, "permission denied"@) {
            "permission denied"@
        } else if has_part(text, "operation not permitted"@) {
            "operation not permitted"@
        } else if has_part(text, "eperm"@) {
            "eperm"@
        } else {
            "eacces"@
        };
        assert(has_part(text, part));
        let at = choose|at: int| part_at(text, part, at);
        let a = text.take(at);
        let b = text.skip(at + part.len());
        assert(text =~= a + part + b);
    }
}

proof fn lemma_part_in_the_middle(before: Seq<char>, part: Seq<char>, after: Seq<char>)
    ensures
        has_part(before + part + after, part),
{
    let text = before + part + after;
    assert(text.subrange(before.len() as int, before.len() as int + part.len()) =~= part);
    assert(part_at(text, part, before.len() as int));
}

/// An interface without a program gets the one that is wanted; one that has it keeps it; and one
/// that has another is left alone.
pub proof fn law_program_of_an_interface(attached: Map<u32, u64>, if_index: u32, wanted: u64)
    ensures
        !attached.dom().contains(if_index) <==> chosen(attached, if_index, wanted)
            == (ProgramChoice::Load { hash: wanted }),
        chosen(attached, if_index, wanted) is Reuse <==> attached.dom().contains(if_index)
            && attached[if_index] == wanted,
        attached.dom().contains(if_index) && attached[if_index] != wanted ==> chosen(
            attached,
            if_index,
            wanted,
        ) == (ProgramChoice::Mismatch { existing: attached[if_index], wanted }),
{
}

/// The hash of a program covers its length and all of its bytes.
pub proof fn law_hash_covers_the_program(bytes: Seq<u8>)
    ensures
        program_hash(bytes) == DefaultHasher::spec_finish(
            seq![vstd::bytes::spec_u64_to_le_bytes(bytes.len() as u64), bytes],
        ),
{
}

} // verus!
