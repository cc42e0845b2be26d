//! A physical device as the selection logic sees it: its extensions, the
//! Vulkan 1.2 features the engine relies on, and its queue families.
use crate::matcher::{
    initial_used, lemma_plan_within_capacity, lemma_units_to_push, match_requests, plan, units_to,
    Grant, Infeasible, ResourcePool, ResourceRequest,
};
use crate::requirements::{
    get_minimum_viable_requirements, minimum_extension_names, names_of, PhysicalDeviceRequirements,
    QueueRequirements,
};
use vstd::prelude::*;

verus! {

/// One queue family of a device.
#[derive(Clone, Copy, PartialEq, Eq, Structural, Debug)]
pub struct QueueFamilyInfo {
    /// Capabilities of the family's queues, as raw `VkQueueFlags` bits.
    pub queue_flags: u32,
    /// Number of queues the family offers.
    pub queue_count: u32,
    /// The family index of the queue family.
    pub index: u32,
    /// Whether the family can present to the surface the device was probed with.
    pub presentable: bool,
}

/// The Vulkan 1.2 features the engine cannot do without, as reported by a device.
#[derive(Clone, Copy, PartialEq, Eq, Structural, Debug)]
pub struct Vulkan12Features {
    pub buffer_device_address: bool,
    pub descriptor_indexing: bool,
    pub descriptor_binding_partially_bound: bool,
    pub shader_sampled_image_array_non_uniform_indexing: bool,
    pub shader_storage_image_array_non_uniform_indexing: bool,
    pub shader_storage_buffer_array_non_uniform_indexing: bool,
    pub descriptor_binding_sampled_image_update_after_bind: bool,
    pub descriptor_binding_storage_image_update_after_bind: bool,
    pub descriptor_binding_storage_buffer_update_after_bind: bool,
    pub descriptor_binding_update_unused_while_pending: bool,
    pub timeline_semaphore: bool,
}

/// Every feature the engine relies on is present.
pub open spec fn base_features_supported(f: Vulkan12Features) -> bool {
    &&& f.buffer_device_address
    &&& f.descriptor_indexing
    &&& f.descriptor_binding_partially_bound
    &&& f.shader_sampled_image_array_non_uniform_indexing
    &&& f.shader_storage_image_array_non_uniform_indexing
    &&& f.shader_storage_buffer_array_non_uniform_indexing
    &&& f.descriptor_binding_sampled_image_update_after_bind
    &&& f.descriptor_binding_storage_image_update_after_bind
    &&& f.descriptor_binding_storage_buffer_update_after_bind
    &&& f.descriptor_binding_update_unused_while_pending
    &&& f.timeline_semaphore
}

/// Every name of `wanted` occurs in `available`.
pub open spec fn contains_all(available: Seq<Seq<char>>, wanted: Seq<Seq<char>>) -> bool {
    forall|i: int| 0 <= i < wanted.len() ==> available.contains(#[trigger] wanted[i])
}

/// Whether some string of `available` holds `name`.
fn contains_name(available: &Vec<String>, name: &String) -> (r: bool)
    ensures
        r == names_of(available@).contains(name@),
{
    let mut i: usize = 0;
    while i < available.len()
        invariant
            0 <= i <= available@.len(),
            forall|j: int| 0 <= j < i ==> available@[j]@ != name@,
        decreases available@.len() - i,
    {
        if available[i] == *name {
            assert(names_of(available@)[i as int] == name@);
            return true;
        }
        i = i + 1;
    }
    assert forall|j: int| 0 <= j < names_of(available@).len() implies names_of(available@)[j] != name@ by {
        assert(available@[j]@ != name@);
    }
    false
}

/// Whether every name of `names` occurs in `available`.
pub fn contains_all_names(available: &Vec<String>, names: &Vec<String>) -> (r: bool)
    ensures
        r == contains_all(names_of(available@), names_of(names@)),
{
    let mut i: usize = 0;
    while i < names.len()
        invariant
            0 <= i <= names@.len(),
            forall|j: int| 0 <= j < i ==> names_of(available@).contains(#[trigger] names_of(names@)[j]),
        decreases names@.len() - i,
    {
        if !contains_name(available, &names[i]) {
            assert(!names_of(available@).contains(names_of(names@)[i as int]));
            return false;
        }
        i = i + 1;
    }
    true
}

/// The pools the matcher sees for a device: one per queue family, with its
/// flags as capabilities and its queue count as capacity.
pub open spec fn family_pools(families: Seq<QueueFamilyInfo>) -> Seq<ResourcePool> {
    families.map_values(
        |f: QueueFamilyInfo| ResourcePool { capability_mask: f.queue_flags, capacity: f.queue_count, used: 0 },
    )
}

/// The requests the matcher sees for a list of queue requirements.
pub open spec fn queue_requests(queues: Seq<QueueRequirements>) -> Seq<ResourceRequest> {
    queues.map_values(
        |q: QueueRequirements| ResourceRequest { capability_mask: q.queue_flags, count: q.count, exclusive: q.dedicated },
    )
}

/// The queue plan of a device for some queue requirements.
pub open spec fn queue_plan(families: Seq<QueueFamilyInfo>, queues: Seq<QueueRequirements>) -> Option<Seq<Grant>> {
    plan(family_pools(families), initial_used(family_pools(families)), queue_requests(queues))
}

/// A device with these extensions and queue families meets `requirements`:
/// it has every extension named, and every queue asked for can be had at
/// once.
pub open spec fn meets(
    extensions: Seq<String>,
    families: Seq<QueueFamilyInfo>,
    requirements: PhysicalDeviceRequirements,
) -> bool {
    &&& contains_all(names_of(extensions), names_of(requirements.extensions@))
    &&& queue_plan(families, requirements.queues@) is Some
}

/// The pools for a list of queue families.
pub fn pools_of(families: &Vec<QueueFamilyInfo>) -> (r: Vec<ResourcePool>)
    ensures
        r@ == family_pools(families@),
{
    let mut r: Vec<ResourcePool> = Vec::new();
    let mut i: usize = 0;
    while i < families.len()
        invariant
            0 <= i <= families@.len(),
            r@ == family_pools(families@.take(i as int)),
        decreases families@.len() - i,
    {
        let f = families[i];
        r.push(ResourcePool { capability_mask: f.queue_flags, capacity: f.queue_count, used: 0 });
        assert(families@.take(i + 1) =~= families@.take(i as int).push(f));
        i = i + 1;
    }
    assert(families@.take(i as int) =~= families@);
    r
}

/// The requests for a list of queue requirements.
pub fn requests_of(queues: &Vec<QueueRequirements>) -> (r: Vec<ResourceRequest>)
    ensures
        r@ == queue_requests(queues@),
{
    let mut r: Vec<ResourceRequest> = Vec::new();
    let mut i: usize = 0;
    while i < queues.len()
        invariant
            0 <= i <= queues@.len(),
            r@ == queue_requests(queues@.take(i as int)),
        decreases queues@.len() - i,
    {
        let q = queues[i];
        r.push(ResourceRequest { capability_mask: q.queue_flags, count: q.count, exclusive: q.dedicated });
        assert(queues@.take(i + 1) =~= queues@.take(i as int).push(q));
        i = i + 1;
    }
    assert(queues@.take(i as int) =~= queues@);
    r
}

/// Queues to create in one family.
#[derive(Clone, Copy, PartialEq, Eq, Structural, Debug)]
pub struct QueueAllocation {
    /// The family index of the queue family.
    pub family_index: u32,
    /// Number of queues to create in it.
    pub queue_count: u32,
}

/// The queues a plan creates: per family, in family order, the units the
/// plan takes from it; families it takes nothing from are left out.
pub open spec fn allocations(families: Seq<QueueFamilyInfo>, grants: Seq<Grant>) -> Seq<QueueAllocation> {
    Seq::new(
        families.len(),
        |p: int| QueueAllocation { family_index: families[p].index, queue_count: units_to(grants, p) as u32 },
    ).filter(|a: QueueAllocation| a.queue_count > 0)
}

/// Keeps the devices that meet `gpu_requirements`, in order; with no
/// requirements every device is kept. Queue requirements are checked
/// together: a family's queues taken by one requirement are not counted
/// again for the next.
pub fn select_suitable_physical_device(
    devices: Vec<PhysicalDevice>,
    gpu_requirements: Option<&PhysicalDeviceRequirements>,
) -> (r: Vec<PhysicalDevice>)
    ensures
        r@ == match gpu_requirements {
            Some(req) => devices@.filter(|d: PhysicalDevice| d.meets_spec(*req)),
            None => devices@,
        },
{
    match gpu_requirements {
        None => devices,
        Some(req) => {
            let ghost all = devices@;
            let ghost keep = |d: PhysicalDevice| d.meets_spec(*req);
            let mut suitable: Vec<PhysicalDevice> = Vec::new();
            for physical_device in it: devices
                invariant
                    it.seq() == all,
                    keep == (|d: PhysicalDevice| d.meets_spec(*req)),
                    suitable@ == all.take(it.index()).filter(keep),
            {
                proof {
                    let k = it.index();
                    assert(all.take(k + 1) =~= all.take(k).push(physical_device));
                    all.take(k).lemma_filter_push(physical_device, keep);
                }
                if physical_device.meets_requirements(Some(req)) {
                    suitable.push(physical_device);
                }
            }
            proof {
                assert(all.take(all.len() as int) =~= all);
            }
            suitable
        },
    }
}

/// A physical device that meets the engine's base requirements, with the
/// requirements it was selected for.
pub struct PhysicalDevice {
    /// Names of the extensions the device offers.
    extensions: Vec<String>,
    /// The Vulkan 1.2 features the engine relies on.
    features_1_2: Vulkan12Features,
    /// The device's queue families.
    queues: Vec<QueueFamilyInfo>,
    /// Requirements the device was selected for.
    gpu_requirements: PhysicalDeviceRequirements,
}

impl PhysicalDevice {
    pub closed spec fn spec_extensions(&self) -> Seq<String> {
        self.extensions@
    }

    pub closed spec fn spec_features(&self) -> Vulkan12Features {
        self.features_1_2
    }

    pub closed spec fn spec_queues(&self) -> Seq<QueueFamilyInfo> {
        self.queues@
    }

    pub closed spec fn spec_requirements(&self) -> PhysicalDeviceRequirements {
        self.gpu_requirements
    }

    /// Whether the device meets `requirements`.
    pub open spec fn meets_spec(&self, requirements: PhysicalDeviceRequirements) -> bool {
        meets(self.spec_extensions(), self.spec_queues(), requirements)
    }

    /// Describes a probed device, or returns `None` when it misses the base
    /// requirements or, if given, `gpu_requirements`.
    pub fn new(
        extensions: Vec<String>,
        features_1_2: Vulkan12Features,
        queues: Vec<QueueFamilyInfo>,
        gpu_requirements: Option<PhysicalDeviceRequirements>,
    ) -> (r: Option<Self>)
        ensures
            r is Some <==> {
                &&& contains_all(names_of(extensions@), minimum_extension_names())
                &&& base_features_supported(features_1_2)
                &&& gpu_requirements matches Some(req) ==> meets(extensions@, queues@, req)
            },
            r matches Some(d) ==> {
                &&& d.spec_extensions() == extensions@
                &&& d.spec_features() == features_1_2
                &&& d.spec_queues() == queues@
                &&& gpu_requirements matches Some(req) ==> d.spec_requirements() == req
                &&& gpu_requirements is None ==> d.spec_requirements().extensions@.len() == 0
                    && d.spec_requirements().queues@.len() == 0
            },
    {
        let gpu_requirements_exist = gpu_requirements.is_some();
        let gpu_requirements = match gpu_requirements {
            Some(req) => req,
            None => PhysicalDeviceRequirements::default(),
        };
        let physical_device = PhysicalDevice { extensions, features_1_2, queues, gpu_requirements };
        if !physical_device.meets_base_requirements() {
            return None;
        }
        if gpu_requirements_exist && !physical_device.meets_requirements(None) {
            return None;
        }
        Some(physical_device)
    }

    /// Names of the extensions the device offers.
    pub fn get_extensions(&self) -> (r: &Vec<String>)
        ensures
            r@ == self.spec_extensions(),
    {
        &self.extensions
    }

    /// The Vulkan 1.2 features the engine relies on, as the device reports them.
    pub fn get_features(&self) -> (r: Vulkan12Features)
        ensures
            r == self.spec_features(),
    {
        self.features_1_2
    }

    /// The device's queue families.
    pub fn get_queue_families(&self) -> (r: &Vec<QueueFamilyInfo>)
        ensures
            r@ == self.spec_queues(),
    {
        &self.queues
    }

    /// The requirements the device was selected for.
    pub fn get_gpu_requirements(&self) -> (r: &PhysicalDeviceRequirements)
        ensures
            *r == self.spec_requirements(),
    {
        &self.gpu_requirements
    }

    /// The queues to create for the device's queue requirements: each
    /// requirement is matched onto a family, the queues matched onto each
    /// family are summed, and families without any are left out. Fails when
    /// the requirements cannot all be met at once.
    pub fn queue_allocations(&self) -> (r: Result<Vec<QueueAllocation>, Infeasible>)
        ensures
            r is Ok <==> queue_plan(self.spec_queues(), self.spec_requirements().queues@) is Some,
            r matches Ok(a) ==> a@ == allocations(
                self.spec_queues(),
                queue_plan(self.spec_queues(), self.spec_requirements().queues@)->0,
            ),
    {
        let pools = pools_of(&self.queues);
        let requests = requests_of(&self.gpu_requirements.queues);
        let grants = match match_requests(&pools, &requests) {
            Ok(grants) => grants,
            Err(e) => {
                return Err(e);
            },
        };
        let n = self.queues.len();
        proof {
            crate::matcher::lemma_plan_sound(pools@, initial_used(pools@), requests@);
            assert forall|p: int| 0 <= p < n implies #[trigger] units_to(grants@, p) <= u32::MAX by {
                lemma_plan_within_capacity(pools@, requests@, p);
            }
        }
        let mut counts: Vec<u32> = Vec::new();
        let mut p: usize = 0;
        while p < n
            invariant
                0 <= p <= n,
                n == self.queues@.len(),
                counts@.len() == p,
                forall|j: int| 0 <= j < p ==> counts@[j] == 0,
            decreases n - p,
        {
            counts.push(0);
            p = p + 1;
        }
        let mut k: usize = 0;
        while k < grants.len()
            invariant
                0 <= k <= grants@.len(),
                n == self.queues@.len(),
                n == pools@.len(),
                counts@.len() == n,
                forall|j: int| 0 <= j < grants@.len() ==> (#[trigger] grants@[j]).pool < n,
                forall|j: int| 0 <= j < n ==> #[trigger] units_to(grants@, j) <= u32::MAX,
                forall|j: int| 0 <= j < n ==> #[trigger] counts@[j] == units_to(grants@.take(k as int), j),
            decreases grants@.len() - k,
        {
            let g = grants[k];
            let ghost before = counts@;
            proof {
                assert(grants@.take(k + 1) =~= grants@.take(k as int).push(g));
                assert forall|j: int| 0 <= j < n implies units_to(grants@.take(k + 1), j) == units_to(
                    grants@.take(k as int),
                    j,
                ) + (if g.pool as int == j {
                    g.units as nat
                } else {
                    0
                }) by {
                    lemma_units_to_push(grants@.take(k as int), g, j);
                }
                assert(grants@ =~= grants@.take(k + 1) + grants@.skip(k + 1));
                crate::matcher::lemma_units_to_add(grants@.take(k + 1), grants@.skip(k + 1), g.pool as int);
                assert(units_to(grants@, g.pool as int) <= u32::MAX);
            }
            counts.set(g.pool, counts[g.pool] + g.units);
            k = k + 1;
        }
        assert(grants@.take(k as int) =~= grants@);
        let ghost entries = Seq::new(
            n as nat,
            |j: int| QueueAllocation { family_index: self.queues@[j].index, queue_count: units_to(grants@, j) as u32 },
        );
        let ghost nonzero = |a: QueueAllocation| a.queue_count > 0;
        let mut out: Vec<QueueAllocation> = Vec::new();
        let mut i: usize = 0;
        while i < n
            invariant
                0 <= i <= n,
                n == self.queues@.len(),
                counts@.len() == n,
                forall|j: int| 0 <= j < n ==> #[trigger] counts@[j] == units_to(grants@, j),
                entries == Seq::new(
                    n as nat,
                    |j: int| QueueAllocation { family_index: self.queues@[j].index, queue_count: units_to(grants@, j) as u32 },
                ),
                nonzero == (|a: QueueAllocation| a.queue_count > 0),
                out@ == entries.take(i as int).filter(nonzero),
            decreases n - i,
        {
            let entry = QueueAllocation { family_index: self.queues[i].index, queue_count: counts[i] };
            proof {
                assert(entries[i as int] == entry);
                assert(entries.take(i + 1) =~= entries.take(i as int).push(entry));
                entries.take(i as int).lemma_filter_push(entry, nonzero);
            }
            if counts[i] > 0 {
                out.push(entry);
            }
            i = i + 1;
        }
        assert(entries.take(n as int) =~= entries);
        Ok(out)
    }

    /// Checks that every extension of `names` is offered by the device.
    pub fn has_extensions(&self, names: &Vec<String>) -> (r: bool)
        ensures
            r == contains_all(names_of(self.spec_extensions()), names_of(names@)),
    {
        contains_all_names(&self.extensions, names)
    }

    /// Checks the most basic requirements: the minimum extensions and the
    /// Vulkan 1.2 features the engine relies on.
    pub fn meets_base_requirements(&self) -> (r: bool)
        ensures
            r == (contains_all(names_of(self.spec_extensions()), minimum_extension_names())
                && base_features_supported(self.spec_features())),
    {
        let minimum = get_minimum_viable_requirements();
        if self.has_extensions(&minimum.extensions) {
            let f = self.features_1_2;
            f.buffer_device_address && f.descriptor_indexing && f.descriptor_binding_partially_bound
                && f.shader_sampled_image_array_non_uniform_indexing
                && f.shader_storage_image_array_non_uniform_indexing
                && f.shader_storage_buffer_array_non_uniform_indexing
                && f.descriptor_binding_sampled_image_update_after_bind
                && f.descriptor_binding_storage_image_update_after_bind
                && f.descriptor_binding_storage_buffer_update_after_bind
                && f.descriptor_binding_update_unused_while_pending && f.timeline_semaphore
        } else {
            false
        }
    }

    /// Checks the device against `requirements`, or against the requirements
    /// it was selected for when `None` is given: every extension named is
    /// offered, and every queue asked for can be had at once.
    pub fn meets_requirements(&self, requirements: Option<&PhysicalDeviceRequirements>) -> (r: bool)
        ensures
            r == match requirements {
                Some(req) => self.meets_spec(*req),
                None => self.meets_spec(self.spec_requirements()),
            },
    {
        let req = match requirements {
            Some(req) => req,
            None => &self.gpu_requirements,
        };
        if !self.has_extensions(&req.extensions) {
            return false;
        }
        let pools = pools_of(&self.queues);
        let requests = requests_of(&req.queues);
        match_requests(&pools, &requests).is_ok()
    }
}

} // verus!
