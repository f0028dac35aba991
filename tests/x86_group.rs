use isa_settings::settings::{ErrorKind, SettingGroup, SettingGroupBuilder};
use isa_settings::x86::define;

fn shared_group(with_pic: bool) -> SettingGroup {
    shared_group_with(true, with_pic)
}

fn shared_group_with(with_simd: bool, with_pic: bool) -> SettingGroup {
    let mut b = SettingGroupBuilder::new("shared");
    if with_simd {
        b.add_bool("enable_simd", "Enable SIMD", false);
    }
    if with_pic {
        b.add_bool("is_pic", "Position-independent code", false);
    }
    b.add_bool("emit_all_ones_funcaddrs", "All-ones function addresses", false);
    b.build().ok().unwrap()
}

#[test]
fn x86_layout() {
    let shared = shared_group(true);
    let g = define(&shared).ok().unwrap();
    assert_eq!(g.name(), "x86");
    assert_eq!(g.num_settings(), 12);
    assert_eq!(g.parent_len(), 3);
    assert_eq!(g.bit_index_of("has_sse3"), Some(0));
    assert_eq!(g.bit_index_of("has_lzcnt"), Some(11));
    assert_eq!(g.bit_index_of("use_ssse3"), Some(12));
    assert_eq!(g.bit_index_of("use_sse41"), Some(13));
    assert_eq!(g.bit_index_of("use_bmi1"), Some(14));
    assert_eq!(g.bit_index_of("use_lzcnt"), Some(15));
    assert_eq!(g.bit_index_of("use_sse42"), None);
    assert_eq!(g.bit_index_of("is_pic"), None);
    assert_eq!(g.bit_index_of("no_such_name"), None);
    assert_eq!(g.bit_width(), 16);
}

#[test]
fn x86_presets() {
    let shared = shared_group(true);
    let g = define(&shared).ok().unwrap();
    assert_eq!(g.preset_bitmask("baseline"), Some(vec![None; 12]));
    let t = Some(true);
    let nehalem = vec![t, t, t, t, None, None, None, None, t, None, None, None];
    assert_eq!(g.preset_bitmask("nehalem"), Some(nehalem));
    let haswell = vec![t, t, t, t, None, None, None, None, t, t, t, t];
    assert_eq!(g.preset_bitmask("haswell"), Some(haswell.clone()));
    assert_eq!(g.preset_bitmask("icelake"), Some(haswell.clone()));
    assert_eq!(g.preset_bitmask("znver1"), Some(haswell));
    assert_eq!(g.preset_bitmask("pentium"), None);
    let bits = g.preset_bits("haswell").unwrap();
    assert_eq!(bits, vec![true, true, true, true, false, false, false, false, true, true, true, true]);
    let full = g.full_bits(&bits, &vec![false, false, false]);
    assert_eq!(full.len(), 16);
    assert_eq!(full[12..].to_vec(), vec![true, true, true, true]);
    let base = g.full_bits(&g.default_bits(), &vec![false, false, false]);
    assert_eq!(base, vec![false; 16]);
}

#[test]
fn x86_predicates() {
    let shared = shared_group(true);
    let g = define(&shared).ok().unwrap();
    let haswell = g.preset_bits("haswell").unwrap();
    let simd_on = vec![true, false, false];
    let simd_off = vec![false, false, false];
    assert_eq!(g.evaluate("use_sse42", &haswell, &simd_off), Some(true));
    assert_eq!(g.evaluate("use_sse42_simd", &haswell, &simd_off), Some(false));
    assert_eq!(g.evaluate("use_sse42_simd", &haswell, &simd_on), Some(true));
    assert_eq!(g.evaluate("use_avx_simd", &haswell, &simd_on), Some(false));
    assert_eq!(g.evaluate("use_popcnt", &haswell, &simd_on), Some(true));
    let defaults = g.default_bits();
    assert_eq!(g.evaluate("use_popcnt", &defaults, &simd_on), Some(false));
    // parent bits: enable_simd, is_pic, emit_all_ones_funcaddrs
    let pic = vec![false, true, false];
    let ones = vec![false, false, true];
    assert_eq!(g.evaluate("is_pic", &defaults, &pic), Some(true));
    assert_eq!(g.evaluate("not_is_pic", &defaults, &pic), Some(false));
    assert_eq!(g.evaluate("all_ones_funcaddrs_and_not_is_pic", &defaults, &ones), Some(true));
    assert_eq!(g.evaluate("all_ones_funcaddrs_and_not_is_pic", &defaults, &pic), Some(false));
    assert_eq!(g.evaluate("not_all_ones_funcaddrs_and_not_is_pic", &defaults, &simd_off), Some(true));
    assert_eq!(g.evaluate("not_all_ones_funcaddrs_and_not_is_pic", &defaults, &ones), Some(false));
    assert_eq!(g.evaluate("has_sse3", &defaults, &pic), None);
}

#[test]
fn x86_needs_shared_settings() {
    let shared = shared_group(false);
    let e = define(&shared).err().unwrap();
    assert_eq!(e.kind, ErrorKind::UnknownSetting);
    assert_eq!(e.name, "is_pic");
}

#[test]
fn x86_reports_missing_shared_setting() {
    let shared = shared_group_with(false, true);
    let e = define(&shared).err().unwrap();
    assert_eq!(e.kind, ErrorKind::UnknownSetting);
    assert_eq!(e.name, "enable_simd");
}
