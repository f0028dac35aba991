use vstd::prelude::*;
use crate::settings::{
    BuildError, DraftModel, NodeModel, ParentModel, PredicateNode, PresetEntry, PresetHandle, SettingGroup,
    SettingGroupBuilder, SettingHandle, build_error, build_model, parent_of,
};

verus! {

pub open spec fn local(i: nat) -> NodeModel {
    NodeModel::Local(i)
}

pub open spec fn shared(s: Seq<char>) -> NodeModel {
    NodeModel::Shared(s)
}

pub open spec fn both(a: NodeModel, b: NodeModel) -> NodeModel {
    NodeModel::And(Box::new(a), Box::new(b))
}

pub open spec fn negated(a: NodeModel) -> NodeModel {
    NodeModel::Not(Box::new(a))
}

pub open spec fn asserts_on(i: usize) -> PresetEntry {
    PresetEntry::Assert(SettingHandle { index: i }, true)
}

pub open spec fn includes(p: usize) -> PresetEntry {
    PresetEntry::Include(PresetHandle { index: p })
}

/// The x86 declarations, against what they see of the parent group.
/// Settings, in bit order: has_sse3, has_ssse3, has_sse41, has_sse42,
/// has_avx, has_avx2, has_avx512dq, has_avx512vl, has_popcnt, has_bmi1,
/// has_bmi2, has_lzcnt.
pub open spec fn x86_draft(parent: ParentModel) -> DraftModel {
    let simd = shared("enable_simd"@);
    let pic = shared("is_pic"@);
    let ones = shared("emit_all_ones_funcaddrs"@);
    DraftModel {
        name: "x86"@,
        parent: parent,
        settings: seq![
            ("has_sse3"@, "SSE3: CPUID.01H:ECX.SSE3[bit 0]"@, false),
            ("has_ssse3"@, "SSSE3: CPUID.01H:ECX.SSSE3[bit 9]"@, false),
            ("has_sse41"@, "SSE4.1: CPUID.01H:ECX.SSE4_1[bit 19]"@, false),
            ("has_sse42"@, "SSE4.2: CPUID.01H:ECX.SSE4_2[bit 20]"@, false),
            ("has_avx"@, "AVX: CPUID.01H:ECX.AVX[bit 28]"@, false),
            ("has_avx2"@, "AVX2: CPUID.07H:EBX.AVX2[bit 5]"@, false),
            ("has_avx512dq"@, "AVX512DQ: CPUID.07H:EBX.AVX512DQ[bit 17]"@, false),
            ("has_avx512vl"@, "AVX512DQ: CPUID.07H:EBX.AVX512VL[bit 31]"@, false),
            ("has_popcnt"@, "POPCNT: CPUID.01H:ECX.POPCNT[bit 23]"@, false),
            ("has_bmi1"@, "BMI1: CPUID.(EAX=07H, ECX=0H):EBX.BMI1[bit 3]"@, false),
            ("has_bmi2"@, "BMI2: CPUID.(EAX=07H, ECX=0H):EBX.BMI2[bit 8]"@, false),
            ("has_lzcnt"@, "LZCNT: CPUID.EAX=80000001H:ECX.LZCNT[bit 5]"@, false),
        ],
        predicates: seq![
            ("use_ssse3"@, local(1)),
            ("use_sse41"@, local(2)),
            ("use_sse42"@, both(local(2), local(3))),
            ("use_ssse3_simd"@, both(simd, local(1))),
            ("use_sse41_simd"@, both(simd, local(2))),
            ("use_sse42_simd"@, both(both(simd, local(2)), local(3))),
            ("use_avx_simd"@, both(simd, local(4))),
            ("use_avx2_simd"@, both(simd, local(5))),
            ("use_avx512dq_simd"@, both(simd, local(6))),
            ("use_avx512vl_simd"@, both(simd, local(7))),
            ("use_popcnt"@, both(local(8), local(3))),
            ("use_bmi1"@, local(9)),
            ("use_lzcnt"@, local(11)),
            ("is_pic"@, pic),
            ("not_is_pic"@, negated(pic)),
            ("all_ones_funcaddrs_and_not_is_pic"@, both(ones, negated(pic))),
            ("not_all_ones_funcaddrs_and_not_is_pic"@, both(negated(ones), negated(pic))),
        ],
        presets: seq![
            ("baseline"@, seq![]),
            ("nehalem"@, seq![asserts_on(0), asserts_on(1), asserts_on(2), asserts_on(3), asserts_on(8)]),
            ("haswell"@, seq![includes(1), asserts_on(9), asserts_on(10), asserts_on(11)]),
            ("broadwell"@, seq![includes(2)]),
            ("skylake"@, seq![includes(3)]),
            ("cannonlake"@, seq![includes(4)]),
            ("icelake"@, seq![includes(5)]),
            ("znver1"@, seq![
                asserts_on(0), asserts_on(1), asserts_on(2), asserts_on(3),
                asserts_on(8), asserts_on(9), asserts_on(10), asserts_on(11),
            ]),
        ],
    }
}

fn leaf(h: SettingHandle) -> (r: PredicateNode)
    ensures
        crate::settings::node_model(r) == local(h.index as nat),
{
    PredicateNode::setting(h)
}

fn all_of(a: PredicateNode, b: PredicateNode) -> (r: PredicateNode)
    ensures
        crate::settings::node_model(r) == both(crate::settings::node_model(a), crate::settings::node_model(b)),
{
    PredicateNode::and(a, b)
}

/// Declares the x86 settings group, whose predicates read the settings
/// `enable_simd`, `is_pic` and `emit_all_ones_funcaddrs` of `shared`.
pub fn define(shared: &SettingGroup) -> (r: Result<SettingGroup, BuildError>)
    requires
        shared.wf(),
    ensures
        ({
            let d = x86_draft(parent_of(shared@));
            match r {
                Ok(g) => build_error(d) is None && g@ == build_model(d) && g.wf(),
                Err(e) => build_error(d) == Some((e.kind, e.name@)),
            }
        }),
{
    let mut settings = SettingGroupBuilder::with_parent("x86", shared);

    // CPUID.01H:ECX
    let has_sse3 = settings.add_bool("has_sse3", "SSE3: CPUID.01H:ECX.SSE3[bit 0]", false);
    let has_ssse3 = settings.add_bool("has_ssse3", "SSSE3: CPUID.01H:ECX.SSSE3[bit 9]", false);
    let has_sse41 = settings.add_bool("has_sse41", "SSE4.1: CPUID.01H:ECX.SSE4_1[bit 19]", false);
    let has_sse42 = settings.add_bool("has_sse42", "SSE4.2: CPUID.01H:ECX.SSE4_2[bit 20]", false);
    let has_avx = settings.add_bool("has_avx", "AVX: CPUID.01H:ECX.AVX[bit 28]", false);
    let has_avx2 = settings.add_bool("has_avx2", "AVX2: CPUID.07H:EBX.AVX2[bit 5]", false);
    let has_avx512dq = settings.add_bool("has_avx512dq", "AVX512DQ: CPUID.07H:EBX.AVX512DQ[bit 17]", false);
    let has_avx512vl = settings.add_bool("has_avx512vl", "AVX512DQ: CPUID.07H:EBX.AVX512VL[bit 31]", false);
    let has_popcnt = settings.add_bool("has_popcnt", "POPCNT: CPUID.01H:ECX.POPCNT[bit 23]", false);

    // CPUID.(EAX=07H, ECX=0H):EBX
    let has_bmi1 = settings.add_bool("has_bmi1", "BMI1: CPUID.(EAX=07H, ECX=0H):EBX.BMI1[bit 3]", false);
    let has_bmi2 = settings.add_bool("has_bmi2", "BMI2: CPUID.(EAX=07H, ECX=0H):EBX.BMI2[bit 8]", false);

    // CPUID.EAX=80000001H:ECX
    let has_lzcnt = settings.add_bool("has_lzcnt", "LZCNT: CPUID.EAX=80000001H:ECX.LZCNT[bit 5]", false);

    settings.add_predicate("use_ssse3", leaf(has_ssse3));
    settings.add_predicate("use_sse41", leaf(has_sse41));
    settings.add_predicate("use_sse42", all_of(leaf(has_sse41), leaf(has_sse42)));

    settings.add_predicate(
        "use_ssse3_simd",
        all_of(PredicateNode::shared(shared.get_bool("enable_simd")), leaf(has_ssse3)),
    );
    settings.add_predicate(
        "use_sse41_simd",
        all_of(PredicateNode::shared(shared.get_bool("enable_simd")), leaf(has_sse41)),
    );
    settings.add_predicate(
        "use_sse42_simd",
        all_of(
            all_of(PredicateNode::shared(shared.get_bool("enable_simd")), leaf(has_sse41)),
            leaf(has_sse42),
        ),
    );
    settings.add_predicate(
        "use_avx_simd",
        all_of(PredicateNode::shared(shared.get_bool("enable_simd")), leaf(has_avx)),
    );
    settings.add_predicate(
        "use_avx2_simd",
        all_of(PredicateNode::shared(shared.get_bool("enable_simd")), leaf(has_avx2)),
    );
    settings.add_predicate(
        "use_avx512dq_simd",
        all_of(PredicateNode::shared(shared.get_bool("enable_simd")), leaf(has_avx512dq)),
    );
    settings.add_predicate(
        "use_avx512vl_simd",
        all_of(PredicateNode::shared(shared.get_bool("enable_simd")), leaf(has_avx512vl)),
    );

    settings.add_predicate("use_popcnt", all_of(leaf(has_popcnt), leaf(has_sse42)));
    settings.add_predicate("use_bmi1", leaf(has_bmi1));
    settings.add_predicate("use_lzcnt", leaf(has_lzcnt));

    // Shared values that x86 instruction predicates test, kept in this group.
    settings.add_predicate("is_pic", PredicateNode::shared(shared.get_bool("is_pic")));
    settings.add_predicate("not_is_pic", PredicateNode::not(PredicateNode::shared(shared.get_bool("is_pic"))));
    settings.add_predicate(
        "all_ones_funcaddrs_and_not_is_pic",
        all_of(
            PredicateNode::shared(shared.get_bool("emit_all_ones_funcaddrs")),
            PredicateNode::not(PredicateNode::shared(shared.get_bool("is_pic"))),
        ),
    );
    settings.add_predicate(
        "not_all_ones_funcaddrs_and_not_is_pic",
        all_of(
            PredicateNode::not(PredicateNode::shared(shared.get_bool("emit_all_ones_funcaddrs"))),
            PredicateNode::not(PredicateNode::shared(shared.get_bool("is_pic"))),
        ),
    );

    // Presets corresponding to x86 CPUs.
    settings.add_preset("baseline", Vec::new());
    let mut entries: Vec<PresetEntry> = Vec::new();
    entries.push(PresetEntry::Assert(has_sse3, true));
    entries.push(PresetEntry::Assert(has_ssse3, true));
    entries.push(PresetEntry::Assert(has_sse41, true));
    entries.push(PresetEntry::Assert(has_sse42, true));
    entries.push(PresetEntry::Assert(has_popcnt, true));
    let nehalem = settings.add_preset("nehalem", entries);
    let mut entries: Vec<PresetEntry> = Vec::new();
    entries.push(PresetEntry::Include(nehalem));
    entries.push(PresetEntry::Assert(has_bmi1, true));
    entries.push(PresetEntry::Assert(has_bmi2, true));
    entries.push(PresetEntry::Assert(has_lzcnt, true));
    let haswell = settings.add_preset("haswell", entries);
    let mut entries: Vec<PresetEntry> = Vec::new();
    entries.push(PresetEntry::Include(haswell));
    let broadwell = settings.add_preset("broadwell", entries);
    let mut entries: Vec<PresetEntry> = Vec::new();
    entries.push(PresetEntry::Include(broadwell));
    let skylake = settings.add_preset("skylake", entries);
    let mut entries: Vec<PresetEntry> = Vec::new();
    entries.push(PresetEntry::Include(skylake));
    let cannonlake = settings.add_preset("cannonlake", entries);
    let mut entries: Vec<PresetEntry> = Vec::new();
    entries.push(PresetEntry::Include(cannonlake));
    settings.add_preset("icelake", entries);
    let mut entries: Vec<PresetEntry> = Vec::new();
    entries.push(PresetEntry::Assert(has_sse3, true));
    entries.push(PresetEntry::Assert(has_ssse3, true));
    entries.push(PresetEntry::Assert(has_sse41, true));
    entries.push(PresetEntry::Assert(has_sse42, true));
    entries.push(PresetEntry::Assert(has_popcnt, true));
    entries.push(PresetEntry::Assert(has_bmi1, true));
    entries.push(PresetEntry::Assert(has_bmi2, true));
    entries.push(PresetEntry::Assert(has_lzcnt, true));
    settings.add_preset("znver1", entries);

    assert(settings@.settings =~= x86_draft(settings@.parent).settings);
    assert(settings@.predicates =~= x86_draft(settings@.parent).predicates);
    assert(settings@.presets =~~= x86_draft(settings@.parent).presets);
    settings.build()
}

} // verus!
