use dragondance::{AddError, Module, Trace};

fn written(trace: &Trace) -> Vec<u8> {
    let mut out = Vec::new();
    trace.write(&mut out);
    out
}

fn record(offset: u32, size: u16, module: u16) -> Vec<u8> {
    let mut r = Vec::new();
    r.extend_from_slice(&offset.to_ne_bytes());
    r.extend_from_slice(&size.to_ne_bytes());
    r.extend_from_slice(&module.to_ne_bytes());
    r.extend_from_slice(&0u32.to_ne_bytes());
    r
}

#[test]
fn smoke_test() {
    let modules = [Module::new("abcd.so", 0x1000, 0x2000)];
    let mut trace = Trace::new(&modules);

    trace.add(0x1234, 1);

    let mut out = Vec::new();
    trace.write(&mut out);

    assert!(!out.is_empty());
}

#[test]
#[should_panic]
fn add_out_of_bounds() {
    let modules = [Module::new("abcd.so", 0x1000, 0x2000)];
    let mut trace = Trace::new(&modules);
    trace.add(0xdead, 10);
}

#[test]
fn module_contains_base_not_end() {
    let m = Module::new("m", 0x1000, 0x2000);
    assert!(m.contains(0x1000));
    assert!(m.contains(0x1fff));
    assert!(!m.contains(0x2000));
    assert!(!m.contains(0xfff));
    let widest = Module::new("w", 0, 0xFFFF_FFFF);
    assert!(widest.contains(0));
    assert!(!widest.contains(0xFFFF_FFFF));
}

#[test]
fn module_getters() {
    let m = Module::new("libc.so", 0x555000, 0x556000);
    assert_eq!(m.name(), "libc.so");
    assert_eq!(m.base(), 0x555000);
    assert_eq!(m.end(), 0x556000);
}

#[test]
fn try_new_rejects_bad_ranges() {
    assert!(Module::try_new("a", 0x2000, 0x1000).is_none());
    assert!(Module::try_new("a", 0x1000, 0x1000).is_none());
    assert!(Module::try_new("a", 0, 0x1_0000_0000).is_none());
    assert!(Module::try_new("a", 5, u64::MAX).is_none());
    let ok = Module::try_new("a", 0, 0xFFFF_FFFF).unwrap();
    assert_eq!(ok.end(), 0xFFFF_FFFF);
    let ok = Module::try_new("b", 0x1000, 0x1001).unwrap();
    assert!(ok.contains(0x1000));
}

#[test]
fn module_containing_prefers_first() {
    let modules = [
        Module::new("a", 0x1000, 0x2000),
        Module::new("b", 0x1800, 0x3000),
    ];
    let trace = Trace::new(&modules);
    assert_eq!(trace.module_containing(0x1900).unwrap().name(), "a");
    assert_eq!(trace.module_containing(0x2100).unwrap().name(), "b");
    assert!(trace.module_containing(0x3000).is_none());
    assert!(trace.module_containing(0).is_none());
}

#[test]
fn add_records_offset_and_module_index() {
    let modules = [
        Module::new("a", 0x1000, 0x2000),
        Module::new("b", 0x555000, 0x556000),
    ];
    let mut trace = Trace::new(&modules);
    trace.add(0x555010, 7);
    trace.add(0x1000, 0xFFFF);
    let out = written(&trace);
    let n = out.len();
    assert_eq!(&out[n - 24..n - 12], &record(0x10, 7, 2)[..]);
    assert_eq!(&out[n - 12..], &record(0, 0xFFFF, 1)[..]);
}

#[test]
fn try_add_outside_modules_fails() {
    let modules = [Module::new("abcd", 0x1000, 0x2000)];
    let mut trace = Trace::new(&modules);
    assert_eq!(trace.try_add(0xdead, 10), Err(AddError::NoModule));
    assert_eq!(trace.try_add(0x2000, 1), Err(AddError::NoModule));
    let out = written(&trace);
    let text = String::from_utf8(out).unwrap();
    assert!(text.contains("EntryCount: 0, ModuleCount: 1\n"));
    assert!(text.ends_with("ENTRY_TABLE\n"));
}

#[test]
fn try_add_size_too_large_fails() {
    let modules = [Module::new("abcd", 0x1000, 0x2000)];
    let mut trace = Trace::new(&modules);
    assert_eq!(trace.try_add(0x1000, 0x10000), Err(AddError::SizeTooLarge));
    assert_eq!(trace.try_add(0xdead, 0x10000), Err(AddError::SizeTooLarge));
    assert_eq!(trace.try_add(0x1000, 0xFFFF), Ok(()));
    let out = written(&trace);
    let text = String::from_utf8_lossy(&out);
    assert!(text.contains("EntryCount: 1, ModuleCount: 1\n"));
}

#[test]
fn end_to_end_example() {
    let modules = [Module::new("abcd", 0x1000, 0x2000)];
    let mut trace = Trace::new(&modules);
    trace.add(0x1204, 3);
    trace.add(0x1207, 12);
    let out = written(&trace);

    let mut expected = b"DDPH-PINTOOL\nEntryCount: 2, ModuleCount: 1\nMODULE_TABLE\n1, 0x1000, 0x2000, abcd\nENTRY_TABLE\n".to_vec();
    expected.extend(record(0x204, 3, 1));
    expected.extend(record(0x207, 12, 1));
    assert_eq!(out, expected);

    let rec = &out[out.len() - 24..];
    assert_eq!(u32::from_ne_bytes([rec[0], rec[1], rec[2], rec[3]]), 0x204);
    assert_eq!(u16::from_ne_bytes([rec[4], rec[5]]), 3);
    assert_eq!(u16::from_ne_bytes([rec[6], rec[7]]), 1);
    assert_eq!(u32::from_ne_bytes([rec[8], rec[9], rec[10], rec[11]]), 0);
    assert_eq!(u32::from_ne_bytes([rec[12], rec[13], rec[14], rec[15]]), 0x207);
    assert_eq!(u16::from_ne_bytes([rec[16], rec[17]]), 12);
    assert_eq!(u16::from_ne_bytes([rec[18], rec[19]]), 1);
    assert_eq!(u32::from_ne_bytes([rec[20], rec[21], rec[22], rec[23]]), 0);
}

#[test]
fn layout_counts_lines_and_records() {
    let modules = [
        Module::new("abcd", 0x1000, 0x2000),
        Module::new("libc.so", 0x555000, 0x556000),
        Module::new("zero", 0, 0x10),
    ];
    let mut trace = Trace::new(&modules);
    trace.add(0x1204, 3);
    trace.add(0x555abc, 1);
    trace.add(0x5, 2);
    trace.add(0x1fff, 4);
    let out = written(&trace);
    let text_part = b"DDPH-PINTOOL\nEntryCount: 4, ModuleCount: 3\nMODULE_TABLE\n1, 0x1000, 0x2000, abcd\n2, 0x555000, 0x556000, libc.so\n3, 0x0, 0x10, zero\nENTRY_TABLE\n";
    assert_eq!(out.len(), text_part.len() + 4 * 12);
    assert_eq!(&out[..text_part.len()], &text_part[..]);
    let recs = &out[text_part.len()..];
    assert_eq!(&recs[0..12], &record(0x204, 3, 1)[..]);
    assert_eq!(&recs[12..24], &record(0xabc, 1, 2)[..]);
    assert_eq!(&recs[24..36], &record(0x5, 2, 3)[..]);
    assert_eq!(&recs[36..48], &record(0xfff, 4, 1)[..]);
}

#[test]
fn write_is_repeatable() {
    let modules = [Module::new("abcd", 0x1000, 0x2000)];
    let mut trace = Trace::new(&modules);
    trace.add(0x1204, 3);
    let first = written(&trace);
    let second = written(&trace);
    assert_eq!(first, second);
    trace.add(0x1207, 12);
    let third = written(&trace);
    assert_eq!(third.len(), first.len() + 12);
    assert!(String::from_utf8_lossy(&third).contains("EntryCount: 2, ModuleCount: 1\n"));
}

#[test]
fn write_appends_to_existing_bytes() {
    let trace = Trace::new(&[]);
    let mut out = vec![0xAAu8];
    trace.write(&mut out);
    let mut expected = vec![0xAAu8];
    expected.extend_from_slice(b"DDPH-PINTOOL\nEntryCount: 0, ModuleCount: 0\nMODULE_TABLE\nENTRY_TABLE\n");
    assert_eq!(out, expected);
}

#[test]
fn large_numbers_render_in_full() {
    let modules = [Module::new("hi", 0xFFFF_FFFF_0000_0000, 0xFFFF_FFFF_FFFF_FFFF)];
    let mut trace = Trace::new(&modules);
    for _ in 0..12 {
        trace.add(0xFFFF_FFFF_FFFF_FFFE, 1);
    }
    let out = written(&trace);
    let text = String::from_utf8_lossy(&out);
    assert!(text.contains("EntryCount: 12, ModuleCount: 1\n"));
    assert!(text.contains("1, 0xffffffff00000000, 0xffffffffffffffff, hi\n"));
    let n = out.len();
    assert_eq!(&out[n - 12..], &record(0xFFFF_FFFE, 1, 1)[..]);
}

#[test]
fn registry_past_16_bit_indices() {
    let modules: Vec<Module> = (0..0x10000u64)
        .map(|k| Module::new("m", k * 0x10, k * 0x10 + 0x10))
        .collect();
    let mut trace = Trace::new(&modules);
    assert_eq!(trace.try_add(0xFFFF * 0x10 + 4, 2), Err(AddError::ModuleIndexTooLarge));
    assert_eq!(trace.try_add(0xFFFE * 0x10 + 4, 2), Ok(()));
    let out = written(&trace);
    let text = String::from_utf8_lossy(&out);
    assert!(text.contains("EntryCount: 1, ModuleCount: 65536\n"));
    assert!(text.contains("65536, 0xffff0, 0x100000, m\n"));
    let n = out.len();
    assert_eq!(&out[n - 12..], &record(4, 2, 0xFFFF)[..]);
}
