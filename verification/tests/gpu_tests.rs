use video_transcoder::gpu::{select_from_devices, select_from_probes, Capability};

#[test]
fn render_node_selects_vaapi() {
    let dri = vec!["card0".to_string(), "renderD128".to_string()];
    let dev = vec!["null".to_string()];
    let cap = select_from_devices(false, &dri, &dev);
    assert_eq!(cap, Capability::Vaapi);
    assert_eq!(cap.token(), "vaapi");
}

#[test]
fn nvidia_device_selects_nvenc_when_no_render_node() {
    let dri: Vec<String> = vec![];
    let dev = vec!["tty0".to_string(), "nvidia0".to_string()];
    let cap = select_from_devices(false, &dri, &dev);
    assert_eq!(cap, Capability::Nvenc);
    assert_eq!(cap.token(), "nvenc");
}

#[test]
fn bare_host_falls_back_to_software() {
    let dri = vec!["by-path".to_string()];
    let dev = vec!["tty0".to_string(), "null".to_string()];
    let cap = select_from_devices(false, &dri, &dev);
    assert_eq!(cap, Capability::Cpu);
    assert_eq!(cap.token(), "cpu");
}

#[test]
fn override_forces_software_over_any_devices() {
    let dri = vec!["card0".to_string()];
    let dev = vec!["nvidia0".to_string()];
    let cap = select_from_devices(true, &dri, &dev);
    assert_eq!(cap, Capability::Cpu);
}

#[test]
fn override_forces_software_over_any_probe() {
    let cap = select_from_probes(
        true,
        Some("Device 0: CUDA device found"),
        Some("using VAAPI driver"),
    );
    assert_eq!(cap, Capability::Cpu);
    assert_eq!(cap.token(), "cpu");
}

#[test]
fn cuda_diagnostic_selects_nvenc_regardless_of_case() {
    let cap = select_from_probes(false, Some("opened CUDA Device #0"), None);
    assert_eq!(cap, Capability::Nvenc);
}

#[test]
fn render_node_path_in_diagnostic_selects_vaapi() {
    let cap = select_from_probes(false, Some("no device"), Some("using /dev/dri/renderD128"));
    assert_eq!(cap, Capability::Vaapi);
    let cap = select_from_probes(false, None, Some("VAAPI initialized"));
    assert_eq!(cap, Capability::Vaapi);
}

#[test]
fn failed_probes_fall_back_to_software() {
    let cap = select_from_probes(false, None, None);
    assert_eq!(cap, Capability::Cpu);
    let cap = select_from_probes(false, Some("nothing here"), Some("nothing here"));
    assert_eq!(cap, Capability::Cpu);
}
