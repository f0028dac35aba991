use isa_settings::settings::{
    ErrorKind, PredicateNode, PresetEntry, SettingGroup, SettingGroupBuilder,
};

fn sample() -> SettingGroupBuilder {
    let mut b = SettingGroupBuilder::new("sample");
    let x = b.add_bool("x", "first", false);
    let y = b.add_bool("y", "second", true);
    b.add_predicate("px", PredicateNode::setting(x));
    b.add_predicate("both", PredicateNode::and(PredicateNode::setting(x), PredicateNode::setting(y)));
    b.add_predicate("py", PredicateNode::setting(y));
    let base = b.add_preset("base", vec![PresetEntry::Assert(x, true)]);
    b.add_preset(
        "derived",
        vec![PresetEntry::Include(base), PresetEntry::Assert(x, false), PresetEntry::Assert(y, true)],
    );
    b
}

fn all_queries(g: &SettingGroup) -> Vec<String> {
    let mut out = Vec::new();
    for n in ["x", "y", "px", "both", "py", "base", "derived", "nothing"] {
        out.push(format!("{:?} {:?} {:?}", g.bit_index_of(n), g.preset_bitmask(n), g.preset_bits(n)));
        for bits in [vec![false, false], vec![false, true], vec![true, false], vec![true, true]] {
            out.push(format!("{:?}", g.evaluate(n, &bits, &vec![])));
        }
    }
    out.push(format!("{} {}", g.bit_width(), g.num_settings()));
    out
}

#[test]
fn build_is_deterministic() {
    let g1 = sample().build().ok().unwrap();
    let g2 = sample().build().ok().unwrap();
    assert_eq!(all_queries(&g1), all_queries(&g2));
    assert_eq!(g1.bit_index_of("x"), Some(0));
    assert_eq!(g1.bit_index_of("y"), Some(1));
    assert_eq!(g1.bit_index_of("px"), Some(2));
    assert_eq!(g1.bit_index_of("both"), None);
    assert_eq!(g1.bit_index_of("py"), Some(3));
    assert_eq!(g1.bit_width(), 4);
}

#[test]
fn simple_predicate_aliases_its_setting() {
    let g = sample().build().ok().unwrap();
    for bits in [vec![false, false], vec![false, true], vec![true, false], vec![true, true]] {
        let xi = g.bit_index_of("x").unwrap();
        let yi = g.bit_index_of("y").unwrap();
        assert_eq!(g.evaluate("px", &bits, &vec![]), Some(bits[xi]));
        assert_eq!(g.evaluate("py", &bits, &vec![]), Some(bits[yi]));
    }
}

#[test]
fn composite_predicates_follow_boolean_rules() {
    let mut b = SettingGroupBuilder::new("ops");
    let a = b.add_bool("a", "", false);
    let c = b.add_bool("b", "", false);
    b.add_predicate("p", PredicateNode::and(PredicateNode::setting(a), PredicateNode::setting(c)));
    b.add_predicate("q", PredicateNode::or(PredicateNode::setting(a), PredicateNode::setting(c)));
    b.add_predicate("r", PredicateNode::not(PredicateNode::setting(a)));
    let g = b.build().ok().unwrap();
    for va in [false, true] {
        for vb in [false, true] {
            let bits = vec![va, vb];
            assert_eq!(g.evaluate("p", &bits, &vec![]), Some(va && vb));
            assert_eq!(g.evaluate("q", &bits, &vec![]), Some(va || vb));
            assert_eq!(g.evaluate("r", &bits, &vec![]), Some(!va));
        }
    }
    assert_eq!(g.bit_index_of("p"), None);
    assert_eq!(g.bit_width(), 2);
}

#[test]
fn preset_expansion_and_override() {
    let g = sample().build().ok().unwrap();
    assert_eq!(g.preset_bitmask("derived"), Some(vec![Some(false), Some(true)]));
    assert_eq!(g.preset_bitmask("base"), Some(vec![Some(true), None]));
    assert_eq!(g.preset_bits("base"), Some(vec![true, true]));
    assert_eq!(g.preset_bits("derived"), Some(vec![false, true]));
    assert_eq!(g.preset_bits("nothing"), None);
}

#[test]
fn transitive_inclusion() {
    let mut b = SettingGroupBuilder::new("chain");
    let s0 = b.add_bool("s0", "", false);
    let s1 = b.add_bool("s1", "", false);
    let s2 = b.add_bool("s2", "", false);
    let s3 = b.add_bool("s3", "", true);
    let p1 = b.add_preset("p1", vec![PresetEntry::Assert(s0, true), PresetEntry::Assert(s3, false)]);
    let p2 = b.add_preset("p2", vec![PresetEntry::Include(p1), PresetEntry::Assert(s1, true)]);
    b.add_preset("p3", vec![PresetEntry::Include(p2), PresetEntry::Assert(s2, true), PresetEntry::Assert(s0, false)]);
    let g = b.build().ok().unwrap();
    assert_eq!(g.preset_bitmask("p3"), Some(vec![Some(false), Some(true), Some(true), Some(false)]));
    assert_eq!(g.preset_bitmask("p2"), Some(vec![Some(true), Some(true), None, Some(false)]));
    assert_eq!(g.preset_bitmask("p1"), Some(vec![Some(true), None, None, Some(false)]));
}

#[test]
fn duplicate_setting_rejected() {
    let mut b = SettingGroupBuilder::new("dup");
    b.add_bool("x", "one", false);
    b.add_bool("x", "two", true);
    let e = b.build().err().unwrap();
    assert_eq!(e.kind, ErrorKind::DuplicateName);
    assert_eq!(e.name, "x");
}

#[test]
fn predicate_named_like_setting_rejected() {
    let mut b = SettingGroupBuilder::new("dup");
    let x = b.add_bool("x", "", false);
    b.add_predicate("x", PredicateNode::setting(x));
    let e = b.build().err().unwrap();
    assert_eq!(e.kind, ErrorKind::DuplicateName);
    assert_eq!(e.name, "x");
}

#[test]
fn duplicate_preset_rejected() {
    let mut b = SettingGroupBuilder::new("dup");
    b.add_bool("x", "", false);
    b.add_preset("x", vec![]);
    b.add_preset("fast", vec![]);
    b.add_preset("fast", vec![]);
    let e = b.build().err().unwrap();
    assert_eq!(e.kind, ErrorKind::DuplicateName);
    assert_eq!(e.name, "fast");
}

#[test]
fn unknown_parent_setting_rejected() {
    let mut pb = SettingGroupBuilder::new("shared");
    pb.add_bool("enable_simd", "", false);
    let parent = pb.build().ok().unwrap();
    let mut b = SettingGroupBuilder::with_parent("child", &parent);
    let x = b.add_bool("x", "", false);
    b.add_predicate("ok", PredicateNode::and(PredicateNode::shared(parent.get_bool("enable_simd")), PredicateNode::setting(x)));
    b.add_predicate("bad", PredicateNode::shared(parent.get_bool("missing")));
    let e = b.build().err().unwrap();
    assert_eq!(e.kind, ErrorKind::UnknownSetting);
    assert_eq!(e.name, "missing");
}

#[test]
fn parent_reference_without_parent_rejected() {
    let mut pb = SettingGroupBuilder::new("shared");
    pb.add_bool("enable_simd", "", false);
    let parent = pb.build().ok().unwrap();
    let mut b = SettingGroupBuilder::new("orphan");
    b.add_predicate("simd", PredicateNode::shared(parent.get_bool("enable_simd")));
    let e = b.build().err().unwrap();
    assert_eq!(e.kind, ErrorKind::UnknownSetting);
    assert_eq!(e.name, "enable_simd");
}

#[test]
fn parent_bits_are_read() {
    let mut pb = SettingGroupBuilder::new("shared");
    pb.add_bool("opt", "", false);
    pb.add_bool("enable_simd", "", false);
    let parent = pb.build().ok().unwrap();
    let mut b = SettingGroupBuilder::with_parent("child", &parent);
    let x = b.add_bool("x", "", false);
    b.add_predicate("simd_x", PredicateNode::and(PredicateNode::shared(parent.get_bool("enable_simd")), PredicateNode::setting(x)));
    let g = b.build().ok().unwrap();
    assert_eq!(g.parent_len(), 2);
    assert_eq!(g.evaluate("simd_x", &vec![true], &vec![false, true]), Some(true));
    assert_eq!(g.evaluate("simd_x", &vec![true], &vec![true, false]), Some(false));
}

#[test]
fn foreign_handles_rejected() {
    let mut other = SettingGroupBuilder::new("other");
    other.add_bool("a", "", false);
    other.add_bool("b", "", false);
    let far = other.add_bool("c", "", false);
    other.add_preset("p0", vec![]);
    let later = other.add_preset("p1", vec![]);

    let mut b = SettingGroupBuilder::new("g");
    b.add_bool("only", "", false);
    b.add_predicate("uses_far", PredicateNode::setting(far));
    let e = b.build().err().unwrap();
    assert_eq!(e.kind, ErrorKind::UnknownSetting);
    assert_eq!(e.name, "uses_far");

    let mut b = SettingGroupBuilder::new("g");
    b.add_bool("only", "", false);
    b.add_preset("bad_assert", vec![PresetEntry::Assert(far, true)]);
    let e = b.build().err().unwrap();
    assert_eq!(e.kind, ErrorKind::UnknownSetting);
    assert_eq!(e.name, "bad_assert");

    let mut b = SettingGroupBuilder::new("g");
    b.add_preset("self_include", vec![PresetEntry::Include(later)]);
    b.add_preset("second", vec![]);
    let e = b.build().err().unwrap();
    assert_eq!(e.kind, ErrorKind::CyclicReference);
    assert_eq!(e.name, "self_include");
}

#[test]
fn empty_group_builds() {
    let g = SettingGroupBuilder::new("empty").build().ok().unwrap();
    assert_eq!(g.num_settings(), 0);
    assert_eq!(g.bit_width(), 0);
    assert_eq!(g.default_bits(), Vec::<bool>::new());
    assert_eq!(g.bit_index_of("x"), None);
}

#[test]
fn end_to_end_example() {
    let mut b = SettingGroupBuilder::new("x86");
    let has_sse3 = b.add_bool("has_sse3", "", false);
    let has_ssse3 = b.add_bool("has_ssse3", "", false);
    let has_bmi1 = b.add_bool("has_bmi1", "", false);
    b.add_predicate("use_ssse3", PredicateNode::setting(has_ssse3));
    let nehalem = b.add_preset(
        "nehalem",
        vec![PresetEntry::Assert(has_sse3, true), PresetEntry::Assert(has_ssse3, true)],
    );
    b.add_preset("haswell", vec![PresetEntry::Include(nehalem), PresetEntry::Assert(has_bmi1, true)]);
    let g = b.build().ok().unwrap();
    assert_eq!(g.preset_bitmask("haswell"), Some(vec![Some(true), Some(true), Some(true)]));
    let bits = g.preset_bits("haswell").unwrap();
    assert_eq!(g.evaluate("use_ssse3", &bits, &vec![]), Some(true));
    assert_eq!(g.evaluate("use_ssse3", &g.default_bits(), &vec![]), Some(false));
}

#[test]
fn predicates_refer_to_earlier_predicates() {
    let mut b = SettingGroupBuilder::new("refs");
    let a = b.add_bool("a", "", false);
    let c = b.add_bool("c", "", false);
    let pa = b.add_predicate("pa", PredicateNode::setting(a));
    let both = b.add_predicate("both", PredicateNode::and(PredicateNode::predicate(pa), PredicateNode::setting(c)));
    b.add_predicate("alias", PredicateNode::predicate(pa));
    b.add_predicate("neither", PredicateNode::not(PredicateNode::predicate(both)));
    let g = b.build().ok().unwrap();
    assert_eq!(g.bit_index_of("pa"), Some(2));
    assert_eq!(g.bit_index_of("both"), None);
    assert_eq!(g.bit_index_of("alias"), Some(3));
    assert_eq!(g.bit_width(), 4);
    for va in [false, true] {
        for vc in [false, true] {
            let bits = vec![va, vc];
            assert_eq!(g.evaluate("alias", &bits, &vec![]), Some(va));
            assert_eq!(g.evaluate("both", &bits, &vec![]), Some(va && vc));
            assert_eq!(g.evaluate("neither", &bits, &vec![]), Some(!(va && vc)));
        }
    }
}

#[test]
fn forward_predicate_reference_rejected() {
    let mut other = SettingGroupBuilder::new("other");
    let x = other.add_bool("x", "", false);
    other.add_predicate("p0", PredicateNode::setting(x));
    let later = other.add_predicate("p1", PredicateNode::setting(x));

    let mut b = SettingGroupBuilder::new("g");
    let y = b.add_bool("y", "", false);
    b.add_predicate("first", PredicateNode::setting(y));
    b.add_predicate("loops", PredicateNode::or(PredicateNode::setting(y), PredicateNode::predicate(later)));
    let e = b.build().err().unwrap();
    assert_eq!(e.kind, ErrorKind::CyclicReference);
    assert_eq!(e.name, "loops");
}

#[test]
fn full_bits_store_simple_predicates() {
    let g = sample().build().ok().unwrap();
    let full = g.full_bits(&vec![true, false], &vec![]);
    assert_eq!(full.len(), g.bit_width());
    assert_eq!(full, vec![true, false, true, false]);
    let px = g.bit_index_of("px").unwrap();
    let py = g.bit_index_of("py").unwrap();
    assert_eq!(full[px], true);
    assert_eq!(full[py], false);
}

#[test]
fn parent_predicates_are_referenced_by_bit() {
    let mut pb = SettingGroupBuilder::new("shared");
    let opt = pb.add_bool("opt", "", false);
    let simd = pb.add_bool("enable_simd", "", false);
    pb.add_predicate("fast", PredicateNode::setting(opt));
    pb.add_predicate("fast_simd", PredicateNode::and(PredicateNode::setting(opt), PredicateNode::setting(simd)));
    let parent = pb.build().ok().unwrap();
    assert_eq!(parent.bit_index_of("fast"), Some(2));

    let mut b = SettingGroupBuilder::with_parent("child", &parent);
    let x = b.add_bool("x", "", false);
    b.add_predicate("x_fast", PredicateNode::and(PredicateNode::setting(x), PredicateNode::shared(parent.get_bool("fast"))));
    let g = b.build().ok().unwrap();
    assert_eq!(g.parent_len(), 3);
    let on = parent.full_bits(&vec![true, false], &vec![]);
    let off = parent.full_bits(&vec![false, true], &vec![]);
    assert_eq!(on, vec![true, false, true]);
    assert_eq!(g.evaluate("x_fast", &vec![true], &on), Some(true));
    assert_eq!(g.evaluate("x_fast", &vec![true], &off), Some(false));

    let mut b = SettingGroupBuilder::with_parent("child", &parent);
    b.add_predicate("uses_composite", PredicateNode::shared(parent.get_bool("fast_simd")));
    let e = b.build().err().unwrap();
    assert_eq!(e.kind, ErrorKind::UnknownSetting);
    assert_eq!(e.name, "fast_simd");
}
