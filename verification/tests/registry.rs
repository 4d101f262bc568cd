//! Choosing a backend by name.

use std::collections::HashSet;

use herbert_backend::backend_registry::{
    all_backends, available_backend_names, available_backends_help, create_backend, find_backend,
    join_backend_names, resolve_auto, BackendAvailability, BackendConsumer, BackendError,
    BackendKind, Platform,
};

fn here() -> Platform {
    Platform::Linux
}

#[test]
fn cli_backend_names_are_unique() {
    let names = available_backend_names(BackendConsumer::Cli, here());
    let unique: HashSet<_> = names.iter().copied().collect();
    assert_eq!(names.len(), unique.len());
    assert!(!names.contains(&"cpu-experimental"));
}

#[test]
fn server_excludes_non_server_backends() {
    let names = available_backend_names(BackendConsumer::Server, here());
    assert!(!names.iter().any(|name| name.starts_with("vulkan-")));
}

#[test]
fn help_text_uses_shared_format() {
    let help = available_backends_help(BackendConsumer::Cli, here());
    assert!(help.starts_with("Available backends:\n"));
    assert!(help.lines().skip(1).all(|line: &str| line.starts_with("  ")));
}

#[test]
fn cli_lists_metal_backends_on_macos() {
    let names = available_backend_names(BackendConsumer::Cli, Platform::MacOs);
    assert!(names.contains(&"metal-q4"));
    assert!(names.contains(&"metal-int8"));
    assert!(names.contains(&"metal-bf16"));
}

#[test]
fn metal_backends_report_platform_specific_error() {
    let err = match create_backend(BackendConsumer::Cli, Platform::Linux, "metal-q4") {
        Ok(_) => panic!("metal-q4 should be unavailable on this target"),
        Err(err) => err.message(),
    };
    assert!(err.contains("requires macOS"));
}

#[test]
fn cli_lists_vulkan_backends_on_linux() {
    let names = available_backend_names(BackendConsumer::Cli, Platform::Linux);
    assert!(names.contains(&"vulkan-q4"));
    assert!(names.contains(&"vulkan-int8"));
    assert!(names.contains(&"vulkan-bf16"));
}

#[test]
fn vulkan_backends_report_platform_specific_error() {
    let err = match create_backend(BackendConsumer::Cli, Platform::MacOs, "vulkan-q4") {
        Ok(_) => panic!("vulkan-q4 should be unavailable on this target"),
        Err(err) => err.message(),
    };
    assert!(err.contains("requires Linux"));
}

#[test]
fn auto_resolves_to_metal_q4_on_macos() {
    assert_eq!(resolve_auto(BackendConsumer::Cli, Platform::MacOs), "metal-q4");
    assert_eq!(resolve_auto(BackendConsumer::Server, Platform::MacOs), "metal-q4");
}

#[test]
fn auto_backend_creates_successfully() {
    let backend = create_backend(BackendConsumer::Cli, here(), "auto");
    assert!(backend.is_ok());
}

#[test]
fn help_text_includes_auto() {
    let help = available_backends_help(BackendConsumer::Cli, here());
    assert!(help.contains("auto"));
}

#[test]
fn auto_is_a_listed_backend_everywhere() {
    for platform in [Platform::MacOs, Platform::Linux, Platform::Other] {
        for consumer in [BackendConsumer::Cli, BackendConsumer::Server] {
            let name = resolve_auto(consumer, platform);
            assert!(available_backend_names(consumer, platform).contains(&name));
            let chosen = create_backend(consumer, platform, "auto");
            assert_eq!(chosen.ok().map(|kind| kind.name()), Some(name));
        }
    }
}

#[test]
fn listed_backends_are_those_that_can_be_created() {
    for platform in [Platform::MacOs, Platform::Linux, Platform::Other] {
        for consumer in [BackendConsumer::Cli, BackendConsumer::Server] {
            let names = available_backend_names(consumer, platform);
            for kind in all_backends() {
                let created = create_backend(consumer, platform, kind.name());
                assert_eq!(created.is_ok(), names.contains(&kind.name()));
            }
        }
    }
}

#[test]
fn unknown_backend_is_named_with_the_options() {
    let err = match create_backend(BackendConsumer::Server, Platform::Other, "cuda") {
        Ok(_) => panic!("there is no such backend"),
        Err(err) => err,
    };
    assert!(matches!(err, BackendError::Unknown { .. }));
    let options = join_backend_names(BackendConsumer::Server, Platform::Other);
    assert_eq!(
        err.message(),
        format!("Unknown backend: cuda. Available options on this build: {}", options)
    );
}

#[test]
fn server_does_not_support_vulkan() {
    let err = match create_backend(BackendConsumer::Server, Platform::Linux, "vulkan-q4") {
        Ok(_) => panic!("the server has no graphics backends"),
        Err(err) => err,
    };
    assert!(matches!(err, BackendError::NotSupported { .. }));
    assert!(err
        .message()
        .starts_with("Backend 'vulkan-q4' is not supported by herbert-server. "));
}

#[test]
fn availability_gives_its_reason() {
    assert_eq!(BackendAvailability::Available.reason(), None);
    assert!(BackendAvailability::Available.is_available());
    assert_eq!(BackendAvailability::Unavailable("why").reason(), Some("why"));
    assert!(!BackendAvailability::Unavailable("why").is_available());
}

#[test]
fn every_name_finds_its_backend() {
    for kind in all_backends() {
        assert_eq!(find_backend(kind.name()), Some(kind));
    }
    assert_eq!(find_backend("bf16-avx512"), Some(BackendKind::Bf16Avx512));
    assert_eq!(find_backend("auto"), None);
    assert_eq!(BackendConsumer::Cli.binary_name(), "herbert-cli");
}
