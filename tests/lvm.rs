use rback::lvm::{lvs_command, Error, LvmDecoder, LvmEntry, LvmInfo};
use rback::sudo::{FakeSudo, Sudo};

fn entry(lv: &str, vg: &str) -> LvmEntry {
    LvmEntry { lv: lv.to_owned(), vg: vg.to_owned() }
}

#[test]
fn test_lvm() {
    let listing = "  LV|VG|Attr|LSize\n  root|main|-wi-ao---|20.00g\n  home|main|-wi-ao---|200.00g\n  swap|aux|-wi-ao---|8.00g\n  home|aux|-wi-a----|10.00g\n";
    let info = LvmInfo::parse(listing).unwrap();
    let expect = vec![entry("home", "aux"), entry("home", "main"), entry("root", "main"), entry("swap", "aux")];
    assert_eq!(info.entries, expect);
}

#[test]
fn columns_found_by_header() {
    let info = LvmInfo::parse("  VG|x|LV\n  g1|y|v1\n").unwrap();
    assert_eq!(info.entries, vec![entry("v1", "g1")]);
}

#[test]
fn header_faults() {
    assert!(matches!(LvmInfo::parse(""), Err(Error::Message(m)) if m == "lvm had no header line"));
    assert!(matches!(LvmDecoder::new("  LV|LV|VG"), Err(Error::Message(m)) if m == "Duplicate key in LVM output"));
    assert!(matches!(LvmDecoder::new("  LV|X"), Err(Error::Message(m)) if m == "missing key from LVM: VG"));
    assert!(matches!(LvmDecoder::new("  X|VG"), Err(Error::Message(m)) if m == "missing key from LVM: LV"));
    assert!(matches!(LvmDecoder::new("LV|VG"), Err(Error::Message(m)) if m == "LVM input line doesn't start with two spaces"));
    assert!(matches!(LvmDecoder::ltrim("  "), Err(Error::Message(m)) if m == "LVM input line too short"));
}

#[test]
fn short_line_is_an_error() {
    let dec = LvmDecoder::new("  LV|VG").unwrap();
    assert!(matches!(dec.decode("  only"), Err(Error::Message(_))));
    let e = dec.decode("  a|b").unwrap();
    assert_eq!(e, entry("a", "b"));
}

#[test]
fn lvs_runs_with_privilege() {
    let c = lvs_command(&Sudo::Sudo);
    assert_eq!(c.program, "sudo");
    assert_eq!(c.args, vec!["lvs", "--separator", "|"]);
    let c = lvs_command(&FakeSudo::new("tests/fake-lvm.sh"));
    assert_eq!(c.program, "tests/fake-lvm.sh");
    assert_eq!(c.args, vec!["--separator", "|"]);
}
