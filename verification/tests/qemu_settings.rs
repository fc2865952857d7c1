use proxmox_yew_comp::qemu::{
    bus_flags, cpu_count, cpu_model_list_url, disk_format_name, disk_formats, disk_role,
    file_on_storage, forced_iothread, memory_changed, memory_load, memory_shown, sev_load,
    sev_submit, sev_type_label, sort_cpu_models, BalloonField, CpuModel, DiskFormat, DiskRole,
    MemoryShown, SevType,
};

#[test]
fn memory_display() {
    assert_eq!(memory_shown(2048, None), MemoryShown::Plain(2048));
    assert_eq!(memory_shown(2048, Some(0)), MemoryShown::BalloonOff(2048));
    assert_eq!(memory_shown(2048, Some(1024)), MemoryShown::Range(1024, 2048));
    assert_eq!(memory_shown(2048, Some(2048)), MemoryShown::Plain(2048));
}

#[test]
fn memory_editor_state() {
    assert_eq!(memory_load(Some(0), Some(2048)), (false, BalloonField::Clear, Some(2048)));
    assert_eq!(memory_load(None, Some(2048)), (true, BalloonField::Fill(2048), Some(2048)));
    assert_eq!(memory_load(Some(512), Some(2048)), (true, BalloonField::Keep, Some(2048)));
    assert_eq!(memory_load(None, None), (true, BalloonField::Keep, None));
    assert_eq!(memory_changed(Some(1024), Some(2048), Some(1024)), (Some(2048), Some(2048)));
    assert_eq!(memory_changed(Some(1024), Some(2048), Some(512)), (None, Some(2048)));
    assert_eq!(memory_changed(Some(1024), None, Some(1024)), (None, Some(1024)));
}

#[test]
fn sev_settings() {
    assert_eq!(sev_load(None, Some(true)), (true, false));
    let r = sev_submit("", false, false, false, true);
    assert!(r.delete && !r.no_debug && !r.kernel_hashes);
    let r = sev_submit("snp", false, false, false, true);
    assert!(!r.delete && r.no_debug && !r.no_key_sharing && r.deny_smt && r.kernel_hashes);
    let r = sev_submit("es", true, false, false, false);
    assert!(!r.no_debug && r.no_key_sharing && !r.deny_smt);
    assert_eq!(sev_type_label(SevType::Snp), "AMD SEV-SNP");
}

#[test]
fn cpus_and_disks() {
    assert_eq!(cpu_count(Some(2), Some(4)), 8);
    assert_eq!(cpu_count(None, Some(4)), 4);
    assert_eq!(cpu_count(None, None), 1);
    assert_eq!(disk_role(None), DiskRole::New);
    assert_eq!(disk_role(Some("unused3")), DiskRole::Unused(Some(3)));
    assert_eq!(disk_role(Some("unusedx")), DiskRole::Unused(None));
    assert_eq!(disk_role(Some("scsi0")), DiskRole::Attached);
    let before = bus_flags("", None);
    let now = bus_flags("scsi1", Some("virtio-scsi-single"));
    assert!(now.is_scsi && !now.is_virtio && now.virtio_scsi_single);
    assert_eq!(forced_iothread(true, &before, &now), Some(true));
    assert_eq!(forced_iothread(false, &before, &now), None);
    let same = bus_flags("scsi2", Some("virtio-scsi-single"));
    assert_eq!(forced_iothread(true, &now, &same), None);
    let sata = bus_flags("sata0", None);
    assert_eq!(forced_iothread(true, &now, &sata), Some(false));
    assert!(file_on_storage("local:iso/a.iso", "local"));
    assert!(!file_on_storage("local-lvm:iso/a.iso", "local"));
}

#[test]
fn disk_format_lists() {
    assert_eq!(disk_formats(None), vec![DiskFormat::Raw, DiskFormat::Qcow2, DiskFormat::Vmdk]);
    assert_eq!(disk_formats(Some(&[DiskFormat::Vmdk, DiskFormat::Raw])), vec![DiskFormat::Raw, DiskFormat::Vmdk]);
    assert_eq!(disk_formats(Some(&[])), vec![]);
    assert_eq!(disk_format_name(DiskFormat::Qcow2), "qcow2");
}

#[test]
fn cpu_models() {
    assert_eq!(cpu_model_list_url(None, None), "/nodes/localhost/capabilities/qemu/cpu");
    assert_eq!(
        cpu_model_list_url(Some("n1"), Some("r1")),
        "/pve/remotes/n1/nodes/r1/capabilities/qemu/cpu"
    );
    let m = |n: &str, v: &str| CpuModel { name: n.to_string(), vendor: v.to_string(), custom: false };
    let sorted = sort_cpu_models(vec![m("kvm64", "a"), m("host", "b"), m("Haswell", "c"), m("host", "d")]);
    let names: Vec<(&str, &str)> = sorted.iter().map(|c| (c.name.as_str(), c.vendor.as_str())).collect();
    assert_eq!(names, vec![("Haswell", "c"), ("host", "b"), ("host", "d"), ("kvm64", "a")]);
}
