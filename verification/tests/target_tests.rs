use lib::name_set::NameSet;
use lib::target::{arch_family, normalize_arch_text, normalize_target_text, ForeignLinkInfo, TargetInfo};

#[test]
fn normalize_target_text_trims_lowercases_and_dashes() {
    assert_eq!(normalize_target_text("  X86_64-Unknown_Linux \t"), "x86-64-unknown-linux");
    assert_eq!(normalize_target_text(""), "");
    assert_eq!(normalize_target_text("   "), "");
    assert_eq!(normalize_target_text("ÄRM_v7"), "Ärm-v7");
}

#[test]
fn normalize_target_text_is_idempotent() {
    let once = normalize_target_text(" Wasm32_WASI ");
    let twice = normalize_target_text(&once);
    assert_eq!(once, twice);
}

#[test]
fn normalize_arch_text_renames_arm() {
    assert_eq!(normalize_arch_text(" ARM "), "aarch32");
    assert_eq!(normalize_arch_text("AArch64"), "aarch64");
    assert_eq!(normalize_arch_text("x86_64"), "x86-64");
    assert_eq!(normalize_arch_text("armv7"), "armv7");
}

#[test]
fn arch_family_groups_architectures() {
    assert_eq!(arch_family("x86_64"), Some("x86"));
    assert_eq!(arch_family("X86"), Some("x86"));
    assert_eq!(arch_family("arm"), Some("arm"));
    assert_eq!(arch_family("aarch64"), Some("arm"));
    assert_eq!(arch_family("riscv64"), Some("risc-v"));
    assert_eq!(arch_family("rv32"), Some("risc-v"));
    assert_eq!(arch_family("wasm32"), Some("webassembly"));
    assert_eq!(arch_family("powerpc64"), Some("powerpc"));
    assert_eq!(arch_family("mips"), Some("mips"));
    assert_eq!(arch_family("loongarch64"), Some("loongarch"));
    assert_eq!(arch_family("s390x"), Some("ibm-z"));
    assert_eq!(arch_family("sparc"), None);
}

#[test]
fn arch_family_of_normalized_arch_is_unchanged() {
    let arch = normalize_arch_text(" AArch64 ");
    assert_eq!(arch_family(&arch), arch_family(" AArch64 "));
}

#[test]
fn target_info_builders_normalize_fields() {
    let target = TargetInfo::new()
        .with_triple(" X86_64-Unknown-Linux-GNU ")
        .with_os("Linux")
        .with_arch("X86_64")
        .with_env(" GNU ")
        .with_abi("SysV")
        .with_vendor("Unknown")
        .with_pointer_width(64)
        .with_endian("Little");
    assert_eq!(target.triple.as_deref(), Some("x86-64-unknown-linux-gnu"));
    assert_eq!(target.os.as_deref(), Some("linux"));
    assert_eq!(target.arch.as_deref(), Some("x86-64"));
    assert_eq!(target.arch_family.as_deref(), Some("x86"));
    assert_eq!(target.env.as_deref(), Some("gnu"));
    assert_eq!(target.abi.as_deref(), Some("sysv"));
    assert_eq!(target.vendor.as_deref(), Some("unknown"));
    assert_eq!(target.pointer_width, Some(64));
    assert_eq!(target.endian.as_deref(), Some("little"));
}

#[test]
fn target_info_arch_without_family_clears_family() {
    let target = TargetInfo::new().with_arch("sparc");
    assert_eq!(target.arch.as_deref(), Some("sparc"));
    assert_eq!(target.arch_family, None);
    let target = TargetInfo::new().with_arch_family(" ARM ");
    assert_eq!(target.arch_family.as_deref(), Some("arm"));
}

#[test]
fn target_info_family_and_features_collect_normalized_names() {
    let features = vec![" SSE2 ".to_string(), "avx_512".to_string(), "sse2".to_string()];
    let target = TargetInfo::new().with_family("Unix").with_family("unix").with_features(&features);
    assert_eq!(target.family.len(), 1);
    assert!(target.family.contains("unix"));
    assert_eq!(target.features.len(), 2);
    assert!(target.features.contains("avx-512"));
    assert!(target.features.contains("sse2"));
    assert!(!target.features.contains("SSE2"));
}

#[test]
fn new_target_info_knows_nothing() {
    let target = TargetInfo::new();
    assert_eq!(target.triple, None);
    assert_eq!(target.os, None);
    assert_eq!(target.family.len(), 0);
    assert_eq!(target.pointer_width, None);
}

#[test]
fn foreign_link_info_builders_set_fields() {
    let link = ForeignLinkInfo::new();
    assert_eq!(link.name, None);
    assert_eq!(link.symbol, None);
    let link = ForeignLinkInfo::new().with_name("c").with_symbol("puts");
    assert_eq!(link.name.as_deref(), Some("c"));
    assert_eq!(link.symbol.as_deref(), Some("puts"));
}

#[test]
fn name_set_keeps_names_sorted_and_unique() {
    let mut set = NameSet::new();
    assert!(set.insert("linux".to_string()));
    assert!(set.insert("bsd".to_string()));
    assert!(set.insert("unix".to_string()));
    assert!(!set.insert("bsd".to_string()));
    assert_eq!(set.len(), 3);
    assert_eq!(set.get(0), "bsd");
    assert_eq!(set.get(1), "linux");
    assert_eq!(set.get(2), "unix");
    assert!(set.contains("linux"));
    assert!(!set.contains("windows"));
}
