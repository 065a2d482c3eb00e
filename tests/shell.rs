use rustcore::shell::{parse_command, parse_words, Command};
use rustcore::vm::{VMManager, VmError};

fn words(ws: &[&str]) -> Vec<String> {
    ws.iter().map(|w| w.to_string()).collect()
}

#[test]
fn parses_create_with_and_without_iso() {
    match parse_command("  create-vm web 2048 4 /img/web.raw ") {
        Command::CreateVM { name, ram, cpus, disk_image, iso_path } => {
            assert_eq!(name, "web");
            assert_eq!(ram, 2048);
            assert_eq!(cpus, 4);
            assert_eq!(disk_image, "/img/web.raw");
            assert_eq!(iso_path, None);
        }
        _ => panic!("expected create-vm"),
    }
    match parse_words(&words(&["create-vm", "db", "lots", "+2", "d.raw", "u.iso"])) {
        Command::CreateVM { ram, cpus, iso_path, .. } => {
            assert_eq!(ram, 0);
            assert_eq!(cpus, 2);
            assert_eq!(iso_path, Some("u.iso".to_string()));
        }
        _ => panic!("expected create-vm"),
    }
}

#[test]
fn parses_update_options() {
    match parse_command("update-vm web --ram 512 --bogus --cpus 2 --ram") {
        Command::UpdateVM { name, ram, cpus } => {
            assert_eq!(name, "web");
            assert_eq!(ram, Some(512));
            assert_eq!(cpus, Some(2));
        }
        _ => panic!("expected update-vm"),
    }
    match parse_words(&words(&["update-vm", "web", "--cpus", "-1"])) {
        Command::UpdateVM { ram, cpus, .. } => {
            assert_eq!(ram, None);
            assert_eq!(cpus, None);
        }
        _ => panic!("expected update-vm"),
    }
}

#[test]
fn parses_simple_commands() {
    assert!(matches!(parse_command("list-vms"), Command::ListVMs));
    assert!(matches!(parse_command("help"), Command::Help));
    assert!(matches!(parse_command(""), Command::Unknown));
    assert!(matches!(parse_command("list-vms now"), Command::Unknown));
    assert!(matches!(parse_command("delete-vm a"), Command::DeleteVM { name } if name == "a"));
    assert!(matches!(parse_command("boot-vm a"), Command::BootVM { name } if name == "a"));
    assert!(matches!(parse_command("stop-vm a"), Command::StopVM { name } if name == "a"));
    assert!(matches!(parse_command("list-snapshots a"), Command::ListSnapshots { name } if name == "a"));
    assert!(matches!(
        parse_command("snapshot-vm a s1"),
        Command::SnapshotVM { name, snapshot } if name == "a" && snapshot == "s1"
    ));
    assert!(matches!(
        parse_command("restore-vm a\ts1"),
        Command::RestoreVM { name, snapshot } if name == "a" && snapshot == "s1"
    ));
}

#[test]
fn registry_lifecycle() {
    let mut vms = VMManager::new();
    assert_eq!(vms.create_vm("a", 128, 1, "a.raw", None), Ok(()));
    assert_eq!(vms.create_vm("a", 256, 2, "b.raw", None), Err(VmError::AlreadyExists));
    assert_eq!(vms.create_vm("b", 256, 2, "b.raw", Some("b.iso")), Ok(()));
    assert_eq!(vms.list_vms().len(), 2);
    assert_eq!(vms.update_vm("a", Some(512), None), Ok(()));
    let a = vms.get_vm("a").unwrap();
    assert_eq!((a.ram, a.cpus), (512, 1));
    assert_eq!(vms.update_vm("zz", Some(1), Some(1)), Err(VmError::NotFound));
    assert_eq!(vms.snapshot_vm("a", "s1"), Ok(()));
    assert_eq!(vms.snapshot_vm("a", "s1"), Err(VmError::SnapshotExists));
    assert_eq!(vms.snapshot_vm("zz", "s1"), Err(VmError::NotFound));
    assert_eq!(vms.restore_vm("a", "s1"), Ok(()));
    assert_eq!(vms.restore_vm("a", "s2"), Err(VmError::SnapshotNotFound));
    assert_eq!(vms.restore_vm("zz", "s1"), Err(VmError::NotFound));
    assert_eq!(vms.get_vm("b").unwrap().iso_path.as_deref(), Some("b.iso"));
    assert_eq!(vms.delete_vm("a"), Ok(()));
    assert_eq!(vms.delete_vm("a"), Err(VmError::NotFound));
    assert!(vms.get_vm("a").is_none());
    assert_eq!(vms.list_vms().len(), 1);
}
