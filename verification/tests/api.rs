use pbrt::api::{
    active_transforms, filter_support, light_support, texture_kind, texture_support,
    verify_initialized, verify_options, verify_world, APIState, ApiCore, NamedTable,
    PluginSupport, TextureKind, Verdict, ALL_TRANSFORMS_BITS, END_TRANSFORM_BITS,
    START_TRANSFORM_BITS,
};

// Transforms are stood in for by numbers and graphics states by strings.
fn machine() -> ApiCore<u32, String> {
    ApiCore::new(1, "gs".to_string())
}

#[test]
fn test_attribute_begin_end() {
    let mut pbrt = machine();
    pbrt.init();
    pbrt.world_begin(1);
    assert_eq!(pbrt.active_transform_bits, ALL_TRANSFORMS_BITS);
    pbrt.attribute_begin(pbrt.graphics_state.clone());
    pbrt.active_transform_start_time();
    assert_eq!(pbrt.active_transform_bits, START_TRANSFORM_BITS);
    pbrt.attribute_end();
    assert_eq!(pbrt.active_transform_bits, ALL_TRANSFORMS_BITS);
    pbrt.world_end();
}

#[test]
fn test_transform_begin_end() {
    let mut pbrt = machine();
    pbrt.init();
    pbrt.world_begin(1);
    assert_eq!(pbrt.active_transform_bits, ALL_TRANSFORMS_BITS);
    pbrt.transform_begin();
    pbrt.active_transform_start_time();
    assert_eq!(pbrt.active_transform_bits, START_TRANSFORM_BITS);
    pbrt.transform_end();
    assert_eq!(pbrt.active_transform_bits, ALL_TRANSFORMS_BITS);
    pbrt.world_end();
}

#[test]
fn attribute_end_restores_everything_saved() {
    let mut pbrt = machine();
    pbrt.init();
    assert_eq!(pbrt.world_begin(1), Verdict::Allowed);
    pbrt.set_active_transforms([5, 6]);
    assert_eq!(pbrt.attribute_begin(pbrt.graphics_state.clone()), Verdict::Allowed);
    pbrt.graphics_state = "changed".to_string();
    pbrt.active_transform_end_time();
    pbrt.set_active_transforms([7, 8]);
    assert_eq!(pbrt.current_transform, [5, 8]);
    assert_eq!(pbrt.attribute_end(), (Verdict::Allowed, true));
    assert_eq!(pbrt.current_transform, [5, 6]);
    assert_eq!(pbrt.graphics_state, "gs");
    assert_eq!(pbrt.active_transform_bits, ALL_TRANSFORMS_BITS);
    // Nothing left to restore.
    assert_eq!(pbrt.attribute_end(), (Verdict::Allowed, false));
    assert_eq!(pbrt.transform_end(), (Verdict::Allowed, false));
}

#[test]
fn state_checks() {
    let mut pbrt = machine();
    assert_eq!(pbrt.world_begin(1), Verdict::NotInitialized);
    assert_eq!(pbrt.state, APIState::Uninitialized);
    assert_eq!(pbrt.attribute_begin("x".to_string()), Verdict::NotInitialized);
    assert!(!pbrt.init());
    assert_eq!(pbrt.attribute_begin("x".to_string()), Verdict::OutsideWorld);
    assert_eq!(pbrt.world_end(), Verdict::OutsideWorld);
    assert_eq!(pbrt.world_begin(1), Verdict::Allowed);
    assert_eq!(pbrt.world_begin(1), Verdict::InsideWorld);
    assert_eq!(pbrt.cleanup(), Verdict::InsideWorld);
    assert_eq!(pbrt.state, APIState::Uninitialized);
    assert_eq!(pbrt.cleanup(), Verdict::NotInitialized);
    assert!(!pbrt.init());
    assert!(pbrt.init());
    assert_eq!(verify_initialized(APIState::OptionsBlock), Verdict::Allowed);
    assert_eq!(verify_options(APIState::WorldBlock), Verdict::InsideWorld);
    assert_eq!(verify_world(APIState::Uninitialized), Verdict::NotInitialized);
}

#[test]
fn named_coordinate_systems() {
    let mut pbrt = machine();
    pbrt.init();
    pbrt.set_active_transforms([2, 2]);
    assert_eq!(pbrt.coordinate_system("two"), Verdict::Allowed);
    pbrt.set_active_transforms([3, 3]);
    assert_eq!(pbrt.current_transform, [3, 3]);
    assert_eq!(pbrt.coordinate_system_transform("two"), (Verdict::Allowed, true));
    assert_eq!(pbrt.current_transform, [2, 2]);
    assert_eq!(pbrt.coordinate_system_transform("three"), (Verdict::Allowed, false));
    assert_eq!(pbrt.current_transform, [2, 2]);
    pbrt.world_begin(1);
    assert_eq!(pbrt.named_coordinate_systems.get("world"), Some([1, 1]));
}

#[test]
fn named_table_replaces() {
    let mut t: NamedTable<u8> = NamedTable::new();
    assert_eq!(t.get("a"), None);
    t.insert("a", 1);
    t.insert("b", 2);
    t.insert("a", 3);
    assert_eq!(t.get("a"), Some(3));
    assert_eq!(t.get("b"), Some(2));
}

#[test]
fn active_transform_selection() {
    assert_eq!(active_transforms(ALL_TRANSFORMS_BITS), [true, true]);
    assert_eq!(active_transforms(START_TRANSFORM_BITS), [true, false]);
    assert_eq!(active_transforms(END_TRANSFORM_BITS), [false, true]);
    assert_eq!(active_transforms(0), [false, false]);
}

#[test]
fn plugin_names() {
    assert_eq!(texture_kind("float"), TextureKind::Float);
    assert_eq!(texture_kind("color"), TextureKind::Spectrum);
    assert_eq!(texture_kind("spectrum"), TextureKind::Spectrum);
    assert_eq!(texture_kind(""), TextureKind::Unknown);
    assert_eq!(texture_support("constant"), PluginSupport::Implemented);
    assert_eq!(texture_support("marble"), PluginSupport::NotImplemented);
    assert_eq!(texture_support("stripes"), PluginSupport::Unknown);
    assert_eq!(light_support("exinfinite"), PluginSupport::Implemented);
    assert_eq!(light_support("spot"), PluginSupport::NotImplemented);
    assert_eq!(light_support("sun"), PluginSupport::Unknown);
    assert_eq!(filter_support("box"), PluginSupport::Implemented);
    assert_eq!(filter_support("sinc"), PluginSupport::NotImplemented);
    assert_eq!(filter_support("lanczos"), PluginSupport::Unknown);
}
