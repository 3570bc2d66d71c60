//! The compilation pipeline: consumes a finished scheme and a hardware
//! profile, resolves logical addresses for every point the layout defines,
//! and assigns each addressed point to a concrete resource by round robin.
//! Code generation is a placeholder stage that emits no bytes.

use vstd::prelude::*;
use crate::identity::{Segment, SegmentId};
use crate::layout::LogicalAddress;
use crate::scheme::{spec_map_to_memory, Scheme};

verus! {

/// The target hardware: processor cores, configurable logic blocks,
/// processing-in-memory units, or a custom description.
#[derive(Clone, Debug)]
pub enum HardwareProfile {
    Cpu { cores: usize },
    Fpga { clbs: usize },
    Pim { units: usize },
    Custom(String),
}

impl HardwareProfile {
    /// A profile can place points when its resource count is positive;
    /// custom profiles place nothing.
    pub open spec fn spec_valid(&self) -> bool {
        match self {
            HardwareProfile::Cpu { cores } => *cores >= 1,
            HardwareProfile::Fpga { clbs } => *clbs >= 1,
            HardwareProfile::Pim { units } => *units >= 1,
            HardwareProfile::Custom(_) => true,
        }
    }
}

/// One concrete placement target.
#[derive(Clone, Copy, Debug, PartialEq, Eq, Hash, Structural)]
pub enum HardwareResource {
    CpuCore(usize),
    FpgaClb(usize),
    PimUnit(usize),
}

/// The resource the profile assigns to the point at position `idx` of the
/// address map: round robin modulo the resource count. Custom profiles
/// assign nothing.
pub open spec fn spec_resource_at(profile: &HardwareProfile, idx: int) -> Option<
    HardwareResource,
> {
    match profile {
        HardwareProfile::Cpu { cores } => Some(
            HardwareResource::CpuCore((idx % (*cores as int)) as usize),
        ),
        HardwareProfile::Fpga { clbs } => Some(
            HardwareResource::FpgaClb((idx % (*clbs as int)) as usize),
        ),
        HardwareProfile::Pim { units } => Some(
            HardwareResource::PimUnit((idx % (*units as int)) as usize),
        ),
        HardwareProfile::Custom(_) => None,
    }
}

/// The identities of the scheme's points whose coordinate the layout
/// defines, in scheme order.
pub open spec fn spec_addressed_ids(s: &Scheme) -> Seq<Seq<u8>> {
    s.spec_segments().filter(
        |seg: Segment| spec_map_to_memory(s.spec_layout(), s.spec_axes(), seg@) is Some,
    ).map_values(|seg: Segment| seg.spec_id())
}

/// The address map the layout resolution produces: for each point the
/// layout defines, its identity and the layout's address of its coordinate,
/// in scheme order.
pub open spec fn spec_address_entries(s: &Scheme) -> Seq<(Seq<u8>, u64)> {
    s.spec_segments().filter(
        |seg: Segment| spec_map_to_memory(s.spec_layout(), s.spec_axes(), seg@) is Some,
    ).map_values(
        |seg: Segment|
            (
                seg.spec_id(),
                spec_map_to_memory(s.spec_layout(), s.spec_axes(), seg@)->Some_0 as u64,
            ),
    )
}

/// The terminal artifact of the pipeline: the scheme, its resolved logical
/// addresses, its hardware placement, and the generated observation code.
pub struct CompiledScheme {
    pub scheme: Scheme,
    pub logical_addresses: Vec<(SegmentId, LogicalAddress)>,
    pub hardware_placement: Vec<(SegmentId, HardwareResource)>,
    pub observation_code: Vec<u8>,
}

/// The pipeline: a scheme and the profile to place it on.
pub struct CompilerPipeline {
    scheme: Scheme,
    profile: HardwareProfile,
}

impl CompilerPipeline {
    /// The scheme being compiled.
    pub closed spec fn spec_scheme(&self) -> Scheme {
        self.scheme
    }

    /// The target profile.
    pub closed spec fn spec_profile(&self) -> HardwareProfile {
        self.profile
    }

    /// A pipeline over one scheme and one profile.
    pub fn new(scheme: Scheme, profile: HardwareProfile) -> (r: Self)
        ensures
            r.spec_scheme() == scheme,
            r.spec_profile() == profile,
    {
        Self { scheme, profile }
    }

    /// Run the pipeline. Every point the layout defines an address for gets
    /// one entry in the address map, in scheme order; points without a
    /// valid address are omitted. Each addressed point is then placed round
    /// robin over the profile's resources; a custom profile places
    /// nothing. Code generation emits no bytes. Deterministic: the result
    /// is a function of the scheme and the profile alone.
    pub fn compile(self) -> (r: CompiledScheme)
        requires
            self.spec_profile().spec_valid(),
        ensures
            r.scheme == self.spec_scheme(),
            r.logical_addresses@.map_values(|p: (SegmentId, LogicalAddress)| p.0@)
                == spec_addressed_ids(&self.spec_scheme()),
            r.logical_addresses@.map_values(
                |p: (SegmentId, LogicalAddress)| (p.0@, p.1.offset),
            ) == spec_address_entries(&self.spec_scheme()),
            forall|i: int|
                0 <= i < r.logical_addresses@.len()
                    ==> (#[trigger] r.logical_addresses@[i]).1.space_id == 0,
            (self.spec_profile() is Custom ==> r.hardware_placement@.len() == 0),
            (!(self.spec_profile() is Custom) ==> r.hardware_placement@.len()
                == r.logical_addresses@.len() && (forall|i: int|
                0 <= i < r.hardware_placement@.len()
                    ==> ((#[trigger] r.hardware_placement@[i]).0@ == r.logical_addresses@[i].0@
                    && Some(r.hardware_placement@[i].1) == spec_resource_at(
                    &self.spec_profile(),
                    i,
                )))),
            r.observation_code@ == Seq::<u8>::empty(),
    {
        let addresses = self.stage_memory_layout_resolution();
        let hardware_placement = self.stage_hardware_mapping(&addresses);
        let observation_code = self.stage_code_generation();
        proof {
            assert(observation_code@ =~= Seq::<u8>::empty());
        }
        CompiledScheme {
            scheme: self.scheme,
            logical_addresses: addresses,
            hardware_placement,
            observation_code,
        }
    }

    /// Resolve a logical address for every point the layout defines one
    /// for; the rest are omitted.
    fn stage_memory_layout_resolution(&self) -> (r: Vec<(SegmentId, LogicalAddress)>)
        ensures
            r@.map_values(|p: (SegmentId, LogicalAddress)| p.0@) == spec_addressed_ids(
                &self.spec_scheme(),
            ),
            r@.map_values(|p: (SegmentId, LogicalAddress)| (p.0@, p.1.offset))
                == spec_address_entries(&self.spec_scheme()),
            forall|i: int| 0 <= i < r@.len() ==> (#[trigger] r@[i]).1.space_id == 0,
    {
        let segments = self.scheme.segments();
        let n = segments.len();
        let ghost segs = self.scheme.spec_segments();
        let ghost pred = |seg: Segment|
            spec_map_to_memory(
                self.spec_scheme().spec_layout(),
                self.spec_scheme().spec_axes(),
                seg@,
            ) is Some;
        let ghost entry_of = |seg: Segment|
            (
                seg.spec_id(),
                spec_map_to_memory(
                    self.spec_scheme().spec_layout(),
                    self.spec_scheme().spec_axes(),
                    seg@,
                )->Some_0 as u64,
            );
        let mut out: Vec<(SegmentId, LogicalAddress)> = Vec::new();
        proof {
            assert(out@.map_values(|p: (SegmentId, LogicalAddress)| p.0@) =~= segs.take(0).filter(
                pred,
            ).map_values(|seg: Segment| seg.spec_id()));
            assert(out@.map_values(|p: (SegmentId, LogicalAddress)| (p.0@, p.1.offset))
                =~= segs.take(0).filter(pred).map_values(entry_of));
        }
        let mut i: usize = 0;
        while i < n
            invariant
                n == segs.len(),
                segments@ == segs,
                segs == self.scheme.spec_segments(),
                self.scheme == self.spec_scheme(),
                pred == (|seg: Segment|
                    spec_map_to_memory(
                        self.spec_scheme().spec_layout(),
                        self.spec_scheme().spec_axes(),
                        seg@,
                    ) is Some),
                i <= n,
                out@.map_values(|p: (SegmentId, LogicalAddress)| p.0@) == segs.take(
                    i as int,
                ).filter(pred).map_values(|seg: Segment| seg.spec_id()),
                entry_of == (|seg: Segment|
                    (
                        seg.spec_id(),
                        spec_map_to_memory(
                            self.spec_scheme().spec_layout(),
                            self.spec_scheme().spec_axes(),
                            seg@,
                        )->Some_0 as u64,
                    )),
                out@.map_values(|p: (SegmentId, LogicalAddress)| (p.0@, p.1.offset)) == segs.take(
                    i as int,
                ).filter(pred).map_values(entry_of),
                forall|k: int| 0 <= k < out@.len() ==> (#[trigger] out@[k]).1.space_id == 0,
            decreases n - i,
        {
            proof {
                assert(segs.take(i + 1) =~= segs.take(i as int).push(segs[i as int]));
                segs.take(i as int).lemma_filter_push(segs[i as int], pred);
            }
            let seg = &segments[i];
            match self.scheme.map_to_logical_address(seg.coordinates()) {
                Some(addr) => {
                    let ghost prev = out@;
                    out.push((*seg.id(), addr));
                    proof {
                        prev.lemma_push_map_commute(
                            |p: (SegmentId, LogicalAddress)| p.0@,
                            out@.last(),
                        );
                        prev.lemma_push_map_commute(
                            |p: (SegmentId, LogicalAddress)| (p.0@, p.1.offset),
                            out@.last(),
                        );
                        segs.take(i as int).filter(pred).lemma_push_map_commute(
                            |seg: Segment| seg.spec_id(),
                            segs[i as int],
                        );
                        segs.take(i as int).filter(pred).lemma_push_map_commute(
                            entry_of,
                            segs[i as int],
                        );
                        assert(out@.map_values(|p: (SegmentId, LogicalAddress)| p.0@) =~= segs.take(
                            i + 1,
                        ).filter(pred).map_values(|seg: Segment| seg.spec_id()));
                        assert(out@.last().1.offset == entry_of(segs[i as int]).1);
                        assert(out@.map_values(
                            |p: (SegmentId, LogicalAddress)| (p.0@, p.1.offset),
                        ) =~= segs.take(i + 1).filter(pred).map_values(entry_of));
                    }
                },
                None => {
                    proof {
                        assert(out@.map_values(|p: (SegmentId, LogicalAddress)| p.0@) =~= segs.take(
                            i + 1,
                        ).filter(pred).map_values(|seg: Segment| seg.spec_id()));
                        assert(out@.map_values(
                            |p: (SegmentId, LogicalAddress)| (p.0@, p.1.offset),
                        ) =~= segs.take(i + 1).filter(pred).map_values(entry_of));
                    }
                },
            }
            i += 1;
        }
        proof {
            assert(segs.take(n as int) =~= segs);
            assert(segs.filter(pred).map_values(entry_of) =~= spec_address_entries(
                &self.spec_scheme(),
            ));
        }
        out
    }

    /// Assign each addressed point to a resource, round robin over the
    /// profile's resource count. Custom profiles place nothing.
    fn stage_hardware_mapping(&self, addresses: &Vec<(SegmentId, LogicalAddress)>) -> (r: Vec<
        (SegmentId, HardwareResource),
    >)
        requires
            self.spec_profile().spec_valid(),
        ensures
            self.spec_profile() is Custom ==> r@.len() == 0,
            !(self.spec_profile() is Custom) ==> r@.len() == addresses@.len() && (forall|i: int|
                0 <= i < r@.len() ==> ((#[trigger] r@[i]).0@ == addresses@[i].0@ && Some(r@[i].1)
                    == spec_resource_at(&self.spec_profile(), i))),
    {
        let mut placement: Vec<(SegmentId, HardwareResource)> = Vec::new();
        let n = addresses.len();
        match &self.profile {
            HardwareProfile::Cpu { cores } => {
                let mut i: usize = 0;
                while i < n
                    invariant
                        n == addresses@.len(),
                        i <= n,
                        self.spec_profile() is Cpu,
                        *cores == self.spec_profile()->Cpu_cores,
                        *cores >= 1,
                        placement@.len() == i,
                        forall|k: int|
                            0 <= k < i ==> ((#[trigger] placement@[k]).0@ == addresses@[k].0@
                                && placement@[k].1 == HardwareResource::CpuCore(
                                (k % (*cores as int)) as usize,
                            )),
                    decreases n - i,
                {
                    placement.push((addresses[i].0, HardwareResource::CpuCore(i % *cores)));
                    i += 1;
                }
            },
            HardwareProfile::Fpga { clbs } => {
                let mut i: usize = 0;
                while i < n
                    invariant
                        n == addresses@.len(),
                        i <= n,
                        self.spec_profile() is Fpga,
                        *clbs == self.spec_profile()->Fpga_clbs,
                        *clbs >= 1,
                        placement@.len() == i,
                        forall|k: int|
                            0 <= k < i ==> ((#[trigger] placement@[k]).0@ == addresses@[k].0@
                                && placement@[k].1 == HardwareResource::FpgaClb(
                                (k % (*clbs as int)) as usize,
                            )),
                    decreases n - i,
                {
                    placement.push((addresses[i].0, HardwareResource::FpgaClb(i % *clbs)));
                    i += 1;
                }
            },
            HardwareProfile::Pim { units } => {
                let mut i: usize = 0;
                while i < n
                    invariant
                        n == addresses@.len(),
                        i <= n,
                        self.spec_profile() is Pim,
                        *units == self.spec_profile()->Pim_units,
                        *units >= 1,
                        placement@.len() == i,
                        forall|k: int|
                            0 <= k < i ==> ((#[trigger] placement@[k]).0@ == addresses@[k].0@
                                && placement@[k].1 == HardwareResource::PimUnit(
                                (k % (*units as int)) as usize,
                            )),
                    decreases n - i,
                {
                    placement.push((addresses[i].0, HardwareResource::PimUnit(i % *units)));
                    i += 1;
                }
            },
            HardwareProfile::Custom(_) => {
            },
        }
        placement
    }

    /// Code generation is a placeholder: it emits no bytes.
    fn stage_code_generation(&self) -> (r: Vec<u8>)
        ensures
            r@ == Seq::<u8>::empty(),
    {
        let r: Vec<u8> = Vec::new();
        proof {
            assert(r@ =~= Seq::<u8>::empty());
        }
        r
    }
}

} // verus!
