use vkcore::physical_device::{
    contains_all_names, select_suitable_physical_device, PhysicalDevice, QueueAllocation,
    QueueFamilyInfo, Vulkan12Features,
};
use vkcore::requirements::{get_minimum_viable_requirements, PhysicalDeviceRequirements, QueueRequirements};

const GRAPHICS: u32 = 0x1;
const COMPUTE: u32 = 0x2;
const TRANSFER: u32 = 0x4;

fn all_features() -> Vulkan12Features {
    Vulkan12Features {
        buffer_device_address: true,
        descriptor_indexing: true,
        descriptor_binding_partially_bound: true,
        shader_sampled_image_array_non_uniform_indexing: true,
        shader_storage_image_array_non_uniform_indexing: true,
        shader_storage_buffer_array_non_uniform_indexing: true,
        descriptor_binding_sampled_image_update_after_bind: true,
        descriptor_binding_storage_image_update_after_bind: true,
        descriptor_binding_storage_buffer_update_after_bind: true,
        descriptor_binding_update_unused_while_pending: true,
        timeline_semaphore: true,
    }
}

fn base_extensions() -> Vec<String> {
    vec![
        "VK_KHR_swapchain".to_string(),
        "VK_KHR_synchronization2".to_string(),
        "VK_KHR_buffer_device_address".to_string(),
        "VK_KHR_dynamic_rendering".to_string(),
    ]
}

fn family(flags: u32, count: u32, index: u32) -> QueueFamilyInfo {
    QueueFamilyInfo { queue_flags: flags, queue_count: count, index, presentable: false }
}

fn queues(reqs: &[(u32, bool, u32)]) -> Vec<QueueRequirements> {
    reqs.iter()
        .map(|&(queue_flags, dedicated, count)| QueueRequirements { queue_flags, dedicated, count })
        .collect()
}

fn requirements(extensions: &[&str], reqs: &[(u32, bool, u32)]) -> PhysicalDeviceRequirements {
    PhysicalDeviceRequirements {
        extensions: extensions.iter().map(|s| s.to_string()).collect(),
        queues: queues(reqs),
    }
}

#[test]
fn minimum_requirements_name_three_extensions() {
    let min = get_minimum_viable_requirements();
    assert_eq!(
        min.extensions,
        vec![
            "VK_KHR_buffer_device_address".to_string(),
            "VK_KHR_dynamic_rendering".to_string(),
            "VK_KHR_synchronization2".to_string(),
        ]
    );
    assert!(min.queues.is_empty());
}

#[test]
fn default_requirements_are_empty() {
    let req = PhysicalDeviceRequirements::default();
    assert!(req.extensions.is_empty());
    assert!(req.queues.is_empty());
}

#[test]
fn name_containment() {
    let available = base_extensions();
    assert!(contains_all_names(&available, &vec![]));
    assert!(contains_all_names(&available, &vec!["VK_KHR_swapchain".to_string()]));
    assert!(!contains_all_names(&available, &vec!["VK_KHR_swapchain".to_string(), "VK_EXT_mesh_shader".to_string()]));
    assert!(!contains_all_names(&vec![], &vec!["VK_KHR_swapchain".to_string()]));
}

#[test]
fn device_missing_base_extension_is_rejected() {
    let extensions = vec!["VK_KHR_buffer_device_address".to_string(), "VK_KHR_dynamic_rendering".to_string()];
    assert!(PhysicalDevice::new(extensions, all_features(), vec![family(GRAPHICS, 1, 0)], None).is_none());
}

#[test]
fn device_missing_feature_is_rejected() {
    let mut features = all_features();
    features.timeline_semaphore = false;
    assert!(PhysicalDevice::new(base_extensions(), features, vec![family(GRAPHICS, 1, 0)], None).is_none());
}

#[test]
fn device_meeting_base_requirements_is_kept() {
    let d = PhysicalDevice::new(base_extensions(), all_features(), vec![family(GRAPHICS, 1, 0)], None).unwrap();
    assert!(d.meets_base_requirements());
    assert_eq!(d.get_extensions(), &base_extensions());
    assert_eq!(d.get_features(), all_features());
    assert_eq!(d.get_queue_families(), &vec![family(GRAPHICS, 1, 0)]);
    assert!(d.get_gpu_requirements().queues.is_empty());
    assert!(d.meets_requirements(None));
    assert!(d.has_extensions(&vec!["VK_KHR_swapchain".to_string()]));
    assert!(!d.has_extensions(&vec!["VK_EXT_mesh_shader".to_string()]));
}

#[test]
fn device_not_meeting_given_requirements_is_rejected() {
    let req = requirements(&["VK_EXT_mesh_shader"], &[]);
    assert!(PhysicalDevice::new(base_extensions(), all_features(), vec![family(GRAPHICS, 1, 0)], Some(req)).is_none());
    let req = requirements(&[], &[(GRAPHICS, false, 2)]);
    assert!(PhysicalDevice::new(base_extensions(), all_features(), vec![family(GRAPHICS, 1, 0)], Some(req)).is_none());
    let req = requirements(&["VK_KHR_swapchain"], &[(GRAPHICS, false, 1)]);
    assert!(PhysicalDevice::new(base_extensions(), all_features(), vec![family(GRAPHICS, 1, 0)], Some(req)).is_some());
}

#[test]
fn queue_requirements_are_checked_together() {
    let d = PhysicalDevice::new(base_extensions(), all_features(), vec![family(GRAPHICS | COMPUTE, 4, 0)], None).unwrap();
    assert!(d.meets_requirements(Some(&requirements(&[], &[(GRAPHICS, false, 3)]))));
    assert!(d.meets_requirements(Some(&requirements(&[], &[(COMPUTE, false, 2)]))));
    assert!(!d.meets_requirements(Some(&requirements(&[], &[(GRAPHICS, false, 3), (COMPUTE, false, 2)]))));
    assert!(!d.meets_requirements(Some(&requirements(&[], &[(GRAPHICS, true, 1)]))));
    assert!(d.meets_requirements(Some(&requirements(&[], &[(GRAPHICS | COMPUTE, true, 1)]))));
}

#[test]
fn selection_keeps_suitable_devices_in_order() {
    let small = || PhysicalDevice::new(base_extensions(), all_features(), vec![family(GRAPHICS, 1, 0)], None).unwrap();
    let large = || {
        PhysicalDevice::new(base_extensions(), all_features(), vec![family(GRAPHICS, 2, 0), family(TRANSFER, 1, 1)], None)
            .unwrap()
    };
    let req = requirements(&[], &[(GRAPHICS, false, 2), (TRANSFER, true, 1)]);
    let kept = select_suitable_physical_device(vec![small(), large(), small(), large()], Some(&req));
    assert_eq!(kept.len(), 2);
    assert!(kept.iter().all(|d| d.get_queue_families().len() == 2));
    let all = select_suitable_physical_device(vec![small(), large()], None);
    assert_eq!(all.len(), 2);
    assert_eq!(all[0].get_queue_families().len(), 1);
    assert!(select_suitable_physical_device(Vec::new(), Some(&req)).is_empty());
}

#[test]
fn queue_allocations_sum_per_family() {
    let families = vec![family(GRAPHICS | COMPUTE | TRANSFER, 4, 0), family(COMPUTE, 2, 1), family(TRANSFER, 2, 2)];
    let req = requirements(&[], &[(GRAPHICS, false, 1), (COMPUTE, false, 1), (GRAPHICS, false, 2)]);
    let d = PhysicalDevice::new(base_extensions(), all_features(), families, Some(req)).unwrap();
    assert_eq!(
        d.queue_allocations(),
        Ok(vec![
            QueueAllocation { family_index: 0, queue_count: 3 },
            QueueAllocation { family_index: 1, queue_count: 1 },
        ])
    );
}

#[test]
fn queue_allocations_fail_when_oversubscribed() {
    let families = vec![family(GRAPHICS, 2, 0)];
    let d = PhysicalDevice::new(base_extensions(), all_features(), families, None).unwrap();
    assert_eq!(d.queue_allocations(), Ok(Vec::new()));
    let families = vec![family(GRAPHICS, 2, 0)];
    let req = requirements(&[], &[(GRAPHICS, false, 3)]);
    assert!(PhysicalDevice::new(base_extensions(), all_features(), families, Some(req)).is_none());
}

