//! The modem features that can be switched off: the NV items each one reads
//! and writes, the rule by which its current bytes count as "disabled", and
//! how a feature's status follows from what was read.
use vstd::prelude::*;
use crate::cli::strings_view;
use crate::importer::join;
use crate::text::{str_eq, string_from_str, string_push_str};
use crate::util::{EfsRead, EfsReadModel};

verus! {

/// One NV item a feature writes when it is disabled: the path and the bytes,
/// as space-separated decimals.
pub struct NvWriteDef {
    pub path: &'static str,
    pub bytes: &'static str,
}

/// When a feature counts as disabled, given the bytes of the items it reads
/// (in the order of its `reads`).
pub enum DisabledRule {
    /// The first item is all zero bytes (or nothing was read).
    FirstAllZero,
    /// There are two items, both all zero bytes.
    FirstTwoAllZero,
    /// The first item starts with these bytes (or nothing was read).
    FirstPrefix(Vec<u8>),
    /// There are at least as many items as prefixes, and item `i` starts
    /// with prefix `i`.
    EachPrefix(Vec<Vec<u8>>),
}

/// A feature: its id and label, the NV items read to tell its status, the
/// writes that disable it, and its rule.
pub struct FeatureDef {
    pub id: &'static str,
    pub label: &'static str,
    pub reads: Vec<&'static str>,
    pub writes: Vec<NvWriteDef>,
    pub rule: DisabledRule,
}

#[verifier::ext_equal]
pub enum RuleModel {
    FirstAllZero,
    FirstTwoAllZero,
    FirstPrefix(Seq<u8>),
    EachPrefix(Seq<Seq<u8>>),
}

#[verifier::ext_equal]
pub struct FeatureModel {
    pub id: Seq<char>,
    pub label: Seq<char>,
    pub reads: Seq<Seq<char>>,
    pub writes: Seq<(Seq<char>, Seq<char>)>,
    pub rule: RuleModel,
}

pub open spec fn rule_view(r: DisabledRule) -> RuleModel {
    match r {
        DisabledRule::FirstAllZero => RuleModel::FirstAllZero,
        DisabledRule::FirstTwoAllZero => RuleModel::FirstTwoAllZero,
        DisabledRule::FirstPrefix(p) => RuleModel::FirstPrefix(p@),
        DisabledRule::EachPrefix(ps) => RuleModel::EachPrefix(ps.deep_view()),
    }
}

pub open spec fn feature_view(f: FeatureDef) -> FeatureModel {
    FeatureModel {
        id: f.id@,
        label: f.label@,
        reads: Seq::new(f.reads@.len(), |i: int| f.reads@[i]@),
        writes: Seq::new(f.writes@.len(), |i: int| (f.writes@[i].path@, f.writes@[i].bytes@)),
        rule: rule_view(f.rule),
    }
}

pub open spec fn all_zero(b: Seq<u8>) -> bool {
    forall|i: int| 0 <= i < b.len() ==> b[i] == 0
}

pub open spec fn has_prefix(b: Seq<u8>, p: Seq<u8>) -> bool {
    p.len() <= b.len() && b.take(p.len() as int) == p
}

/// Whether the bytes read count as disabled under `rule`.
pub open spec fn disabled_by(rule: RuleModel, arrays: Seq<Seq<u8>>) -> bool {
    match rule {
        RuleModel::FirstAllZero => arrays.len() == 0 || all_zero(arrays[0]),
        RuleModel::FirstTwoAllZero => arrays.len() >= 2 && all_zero(arrays[0]) && all_zero(arrays[1]),
        RuleModel::FirstPrefix(p) => arrays.len() == 0 || has_prefix(arrays[0], p),
        RuleModel::EachPrefix(ps) => arrays.len() >= ps.len() && forall|i: int|
            0 <= i < ps.len() ==> has_prefix(#[trigger] arrays[i], ps[i]),
    }
}

/// The features, in the order they are listed.
pub open spec fn feature_table() -> Seq<FeatureModel> {
    seq![
        FeatureModel {
            id: "r17_2t2t"@,
            label: "Disable R17 2T2T UL Tx Switching"@,
            reads: seq!["/nv/item_files/modem/nr5g/RRC/cap_control_nrca_xf_plus_yt_swul_r17_band_combos_v2"@],
            writes: seq![("/nv/item_files/modem/nr5g/RRC/cap_control_nrca_xf_plus_yt_swul_r17_band_combos_v2"@, "0 0 0 0 0 0 0 0 0 0 0 0 0 0 0 0 0 0 0 0 0 0 0 0"@)],
            rule: RuleModel::FirstAllZero,
        },
        FeatureModel {
            id: "r16_2t1t"@,
            label: "Disable R16 2T1T UL Tx Switching"@,
            reads: seq!["/nv/item_files/modem/nr5g/RRC/cap_control_nrca_xf_plus_yt_swul_band_combos_v2"@, "/nv/item_files/modem/nr5g/RRC/cap_swul_type_control"@],
            writes: seq![("/nv/item_files/modem/nr5g/RRC/cap_control_nrca_xf_plus_yt_swul_band_combos_v2"@, "0 0 0 0 0 0 0 0 0 0 0 0 0 0 0 0 0"@), ("/nv/item_files/modem/nr5g/RRC/cap_swul_type_control"@, "0 0 0"@)],
            rule: RuleModel::FirstTwoAllZero,
        },
        FeatureModel {
            id: "ul_mimo"@,
            label: "Disable UL MIMO"@,
            reads: seq!["/nv/item_files/modem/nr5g/RRC/cap_limit_rf_mimo"@],
            writes: seq![("/nv/item_files/modem/nr5g/RRC/cap_limit_rf_mimo"@, "1 1 0 0 0 0 0 0 0 0 0 0 0 0 0 0 0 0 0 0 0 0 0 0 0 0 0 0 0 0 0 0 0 0 0 0 0 0 0 0 0 0 0 0"@)],
            rule: RuleModel::FirstPrefix(seq![1u8, 1u8, 0u8]),
        },
        FeatureModel {
            id: "fdd_ul_mimo"@,
            label: "Disable FDD-only UL MIMO"@,
            reads: seq!["/nv/item_files/modem/nr5g/RRC/cap_control_fdd_ul_mimo"@],
            writes: seq![("/nv/item_files/modem/nr5g/RRC/cap_control_fdd_ul_mimo"@, "0 0"@)],
            rule: RuleModel::FirstPrefix(seq![0u8, 0u8]),
        },
        FeatureModel {
            id: "nr_ulca"@,
            label: "Disable NR UL-CA"@,
            reads: seq!["/nv/item_files/modem/nr5g/RRC/cap_control_nrca_2x_f_plus_t_band_combos"@, "/nv/item_files/modem/nr5g/RRC/cap_control_nrca_3x_f_plus_t_band_combos"@, "/nv/item_files/modem/nr5g/RRC/cap_control_nrca_4x_f_plus_t_band_combos"@, "/nv/item_files/modem/nr5g/RRC/cap_control_nrca_4x_f_plus_t_band_combos_v2"@, "/nv/item_files/modem/nr5g/RRC/cap_control_nrca_f_plus_f_ulca_band_combos"@],
            writes: seq![("/nv/item_files/modem/nr5g/RRC/cap_control_nrca_2x_f_plus_t_band_combos"@, "0"@), ("/nv/item_files/modem/nr5g/RRC/cap_control_nrca_3x_f_plus_t_band_combos"@, "1 1 1 1 0 0"@), ("/nv/item_files/modem/nr5g/RRC/cap_control_nrca_4x_f_plus_t_band_combos"@, "0 1 1"@), ("/nv/item_files/modem/nr5g/RRC/cap_control_nrca_4x_f_plus_t_band_combos_v2"@, "0 1 1 0 1 1"@), ("/nv/item_files/modem/nr5g/RRC/cap_control_nrca_f_plus_f_ulca_band_combos"@, "0 0"@)],
            rule: RuleModel::EachPrefix(seq![seq![0u8], seq![1u8, 1u8, 1u8, 1u8, 0u8, 0u8], seq![0u8, 1u8, 1u8], seq![0u8, 1u8, 1u8, 0u8, 1u8, 1u8], seq![0u8, 0u8]]),
        },
        FeatureModel {
            id: "dl_nrca"@,
            label: "Disable NR DL-CA"@,
            reads: seq!["/nv/item_files/modem/nr5g/RRC/cap_nrca_downgrade_1cc"@],
            writes: seq![("/nv/item_files/modem/nr5g/RRC/cap_nrca_downgrade_1cc"@, "1"@)],
            rule: RuleModel::FirstPrefix(seq![1u8]),
        },
        FeatureModel {
            id: "lowband_4rx"@,
            label: "Disable Lowbands 4Rx"@,
            reads: seq!["/nv/item_files/modem/nr5g/RRC/cap_limit_rf_mimo"@],
            writes: seq![("/nv/item_files/modem/nr5g/RRC/cap_limit_rf_mimo"@, "0 0 0 5 8 0 0 2 20 0 0 2 26 0 0 2 28 0 0 2 71 0 0 2 0 0 0 0 0 0 0 0 0 0 0 0 0 0 0 0 0 0 0 0"@)],
            rule: RuleModel::FirstPrefix(seq![0u8, 0u8, 0u8, 5u8, 8u8, 0u8, 0u8, 2u8, 20u8, 0u8, 0u8, 2u8, 26u8, 0u8, 0u8, 2u8, 28u8, 0u8, 0u8, 2u8, 71u8, 0u8, 0u8, 2u8]),
        },
        FeatureModel {
            id: "nsa_tf_nrca"@,
            label: "Disable T+F NSA NR-CA"@,
            reads: seq!["/nv/item_files/modem/nr5g/RRC/cap_control_mrdc_f_plus_t_band_combos"@, "/nv/item_files/modem/nr5g/RRC/cap_control_t_plus_f_band_combos"@],
            writes: seq![("/nv/item_files/modem/nr5g/RRC/cap_control_mrdc_f_plus_t_band_combos"@, "0"@), ("/nv/item_files/modem/nr5g/RRC/cap_control_t_plus_f_band_combos"@, "7"@)],
            rule: RuleModel::EachPrefix(seq![seq![0u8], seq![7u8]]),
        },
        FeatureModel {
            id: "nsa_ff_nrca"@,
            label: "Disable F+F NSA NR-CA"@,
            reads: seq!["/nv/item_files/modem/nr5g/RRC/cap_control_mrdc_2x_f_plus_f_band_combos"@],
            writes: seq![("/nv/item_files/modem/nr5g/RRC/cap_control_mrdc_2x_f_plus_f_band_combos"@, "0"@)],
            rule: RuleModel::FirstPrefix(seq![0u8]),
        },
        FeatureModel {
            id: "nsa_tt_nrca"@,
            label: "Disable T+T NSA NR-CA"@,
            reads: seq!["/nv/item_files/modem/nr5g/RRC/cap_control_mrdc_t_plus_t_band_combos"@, "/nv/item_files/modem/nr5g/RRC/cap_control_nr_t_plus_t_band_combos"@],
            writes: seq![("/nv/item_files/modem/nr5g/RRC/cap_control_mrdc_t_plus_t_band_combos"@, "0 0 0"@), ("/nv/item_files/modem/nr5g/RRC/cap_control_nr_t_plus_t_band_combos"@, "0 0"@)],
            rule: RuleModel::EachPrefix(seq![seq![0u8, 0u8, 0u8], seq![0u8, 0u8]]),
        },
        FeatureModel {
            id: "segmentation"@,
            label: "Disable Segmentation"@,
            reads: seq!["/nv/item_files/modem/nr5g/RRC/cap_msg_segmentation"@],
            writes: seq![("/nv/item_files/modem/nr5g/RRC/cap_msg_segmentation"@, "0"@)],
            rule: RuleModel::FirstPrefix(seq![0u8]),
        },
        FeatureModel {
            id: "dss"@,
            label: "Disable DSS"@,
            reads: seq!["/nv/item_files/modem/nr5g/RRC/cap_dss_control"@],
            writes: seq![("/nv/item_files/modem/nr5g/RRC/cap_dss_control"@, "0 0"@)],
            rule: RuleModel::FirstPrefix(seq![0u8, 0u8]),
        },
    ]
}

/// The features that can be switched off, in the order they are listed.
pub fn all_features() -> (r: Vec<FeatureDef>)
    ensures
        r@.len() == feature_table().len(),
        forall|i: int| 0 <= i < r@.len() ==> feature_view(#[trigger] r@[i]) == feature_table()[i],
{
    let r = vec![
        FeatureDef {
            id: "r17_2t2t",
            label: "Disable R17 2T2T UL Tx Switching",
            reads: vec!["/nv/item_files/modem/nr5g/RRC/cap_control_nrca_xf_plus_yt_swul_r17_band_combos_v2"],
            writes: vec![NvWriteDef { path: "/nv/item_files/modem/nr5g/RRC/cap_control_nrca_xf_plus_yt_swul_r17_band_combos_v2", bytes: "0 0 0 0 0 0 0 0 0 0 0 0 0 0 0 0 0 0 0 0 0 0 0 0" }],
            rule: DisabledRule::FirstAllZero,
        },
        FeatureDef {
            id: "r16_2t1t",
            label: "Disable R16 2T1T UL Tx Switching",
            reads: vec!["/nv/item_files/modem/nr5g/RRC/cap_control_nrca_xf_plus_yt_swul_band_combos_v2", "/nv/item_files/modem/nr5g/RRC/cap_swul_type_control"],
            writes: vec![NvWriteDef { path: "/nv/item_files/modem/nr5g/RRC/cap_control_nrca_xf_plus_yt_swul_band_combos_v2", bytes: "0 0 0 0 0 0 0 0 0 0 0 0 0 0 0 0 0" }, NvWriteDef { path: "/nv/item_files/modem/nr5g/RRC/cap_swul_type_control", bytes: "0 0 0" }],
            rule: DisabledRule::FirstTwoAllZero,
        },
        FeatureDef {
            id: "ul_mimo",
            label: "Disable UL MIMO",
            reads: vec!["/nv/item_files/modem/nr5g/RRC/cap_limit_rf_mimo"],
            writes: vec![NvWriteDef { path: "/nv/item_files/modem/nr5g/RRC/cap_limit_rf_mimo", bytes: "1 1 0 0 0 0 0 0 0 0 0 0 0 0 0 0 0 0 0 0 0 0 0 0 0 0 0 0 0 0 0 0 0 0 0 0 0 0 0 0 0 0 0 0" }],
            rule: DisabledRule::FirstPrefix(vec![1u8, 1u8, 0u8]),
        },
        FeatureDef {
            id: "fdd_ul_mimo",
            label: "Disable FDD-only UL MIMO",
            reads: vec!["/nv/item_files/modem/nr5g/RRC/cap_control_fdd_ul_mimo"],
            writes: vec![NvWriteDef { path: "/nv/item_files/modem/nr5g/RRC/cap_control_fdd_ul_mimo", bytes: "0 0" }],
            rule: DisabledRule::FirstPrefix(vec![0u8, 0u8]),
        },
        FeatureDef {
            id: "nr_ulca",
            label: "Disable NR UL-CA",
            reads: vec!["/nv/item_files/modem/nr5g/RRC/cap_control_nrca_2x_f_plus_t_band_combos", "/nv/item_files/modem/nr5g/RRC/cap_control_nrca_3x_f_plus_t_band_combos", "/nv/item_files/modem/nr5g/RRC/cap_control_nrca_4x_f_plus_t_band_combos", "/nv/item_files/modem/nr5g/RRC/cap_control_nrca_4x_f_plus_t_band_combos_v2", "/nv/item_files/modem/nr5g/RRC/cap_control_nrca_f_plus_f_ulca_band_combos"],
            writes: vec![NvWriteDef { path: "/nv/item_files/modem/nr5g/RRC/cap_control_nrca_2x_f_plus_t_band_combos", bytes: "0" }, NvWriteDef { path: "/nv/item_files/modem/nr5g/RRC/cap_control_nrca_3x_f_plus_t_band_combos", bytes: "1 1 1 1 0 0" }, NvWriteDef { path: "/nv/item_files/modem/nr5g/RRC/cap_control_nrca_4x_f_plus_t_band_combos", bytes: "0 1 1" }, NvWriteDef { path: "/nv/item_files/modem/nr5g/RRC/cap_control_nrca_4x_f_plus_t_band_combos_v2", bytes: "0 1 1 0 1 1" }, NvWriteDef { path: "/nv/item_files/modem/nr5g/RRC/cap_control_nrca_f_plus_f_ulca_band_combos", bytes: "0 0" }],
            rule: DisabledRule::EachPrefix(vec![vec![0u8], vec![1u8, 1u8, 1u8, 1u8, 0u8, 0u8], vec![0u8, 1u8, 1u8], vec![0u8, 1u8, 1u8, 0u8, 1u8, 1u8], vec![0u8, 0u8]]),
        },
        FeatureDef {
            id: "dl_nrca",
            label: "Disable NR DL-CA",
            reads: vec!["/nv/item_files/modem/nr5g/RRC/cap_nrca_downgrade_1cc"],
            writes: vec![NvWriteDef { path: "/nv/item_files/modem/nr5g/RRC/cap_nrca_downgrade_1cc", bytes: "1" }],
            rule: DisabledRule::FirstPrefix(vec![1u8]),
        },
        FeatureDef {
            id: "lowband_4rx",
            label: "Disable Lowbands 4Rx",
            reads: vec!["/nv/item_files/modem/nr5g/RRC/cap_limit_rf_mimo"],
            writes: vec![NvWriteDef { path: "/nv/item_files/modem/nr5g/RRC/cap_limit_rf_mimo", bytes: "0 0 0 5 8 0 0 2 20 0 0 2 26 0 0 2 28 0 0 2 71 0 0 2 0 0 0 0 0 0 0 0 0 0 0 0 0 0 0 0 0 0 0 0" }],
            rule: DisabledRule::FirstPrefix(vec![0u8, 0u8, 0u8, 5u8, 8u8, 0u8, 0u8, 2u8, 20u8, 0u8, 0u8, 2u8, 26u8, 0u8, 0u8, 2u8, 28u8, 0u8, 0u8, 2u8, 71u8, 0u8, 0u8, 2u8]),
        },
        FeatureDef {
            id: "nsa_tf_nrca",
            label: "Disable T+F NSA NR-CA",
            reads: vec!["/nv/item_files/modem/nr5g/RRC/cap_control_mrdc_f_plus_t_band_combos", "/nv/item_files/modem/nr5g/RRC/cap_control_t_plus_f_band_combos"],
            writes: vec![NvWriteDef { path: "/nv/item_files/modem/nr5g/RRC/cap_control_mrdc_f_plus_t_band_combos", bytes: "0" }, NvWriteDef { path: "/nv/item_files/modem/nr5g/RRC/cap_control_t_plus_f_band_combos", bytes: "7" }],
            rule: DisabledRule::EachPrefix(vec![vec![0u8], vec![7u8]]),
        },
        FeatureDef {
            id: "nsa_ff_nrca",
            label: "Disable F+F NSA NR-CA",
            reads: vec!["/nv/item_files/modem/nr5g/RRC/cap_control_mrdc_2x_f_plus_f_band_combos"],
            writes: vec![NvWriteDef { path: "/nv/item_files/modem/nr5g/RRC/cap_control_mrdc_2x_f_plus_f_band_combos", bytes: "0" }],
            rule: DisabledRule::FirstPrefix(vec![0u8]),
        },
        FeatureDef {
            id: "nsa_tt_nrca",
            label: "Disable T+T NSA NR-CA",
            reads: vec!["/nv/item_files/modem/nr5g/RRC/cap_control_mrdc_t_plus_t_band_combos", "/nv/item_files/modem/nr5g/RRC/cap_control_nr_t_plus_t_band_combos"],
            writes: vec![NvWriteDef { path: "/nv/item_files/modem/nr5g/RRC/cap_control_mrdc_t_plus_t_band_combos", bytes: "0 0 0" }, NvWriteDef { path: "/nv/item_files/modem/nr5g/RRC/cap_control_nr_t_plus_t_band_combos", bytes: "0 0" }],
            rule: DisabledRule::EachPrefix(vec![vec![0u8, 0u8, 0u8], vec![0u8, 0u8]]),
        },
        FeatureDef {
            id: "segmentation",
            label: "Disable Segmentation",
            reads: vec!["/nv/item_files/modem/nr5g/RRC/cap_msg_segmentation"],
            writes: vec![NvWriteDef { path: "/nv/item_files/modem/nr5g/RRC/cap_msg_segmentation", bytes: "0" }],
            rule: DisabledRule::FirstPrefix(vec![0u8]),
        },
        FeatureDef {
            id: "dss",
            label: "Disable DSS",
            reads: vec!["/nv/item_files/modem/nr5g/RRC/cap_dss_control"],
            writes: vec![NvWriteDef { path: "/nv/item_files/modem/nr5g/RRC/cap_dss_control", bytes: "0 0" }],
            rule: DisabledRule::FirstPrefix(vec![0u8, 0u8]),
        },
    ];
    proof {
        assert(feature_view(r@[0]) =~~= feature_table()[0]);
        assert(feature_view(r@[1]) =~~= feature_table()[1]);
        assert(feature_view(r@[2]) =~~= feature_table()[2]);
        assert(feature_view(r@[3]) =~~= feature_table()[3]);
        assert(feature_view(r@[4]) =~~= feature_table()[4]);
        assert(feature_view(r@[5]) =~~= feature_table()[5]);
        assert(feature_view(r@[6]) =~~= feature_table()[6]);
        assert(feature_view(r@[7]) =~~= feature_table()[7]);
        assert(feature_view(r@[8]) =~~= feature_table()[8]);
        assert(feature_view(r@[9]) =~~= feature_table()[9]);
        assert(feature_view(r@[10]) =~~= feature_table()[10]);
        assert(feature_view(r@[11]) =~~= feature_table()[11]);
    }
    r
}

pub open spec fn slices_view(a: Seq<&[u8]>) -> Seq<Seq<u8>> {
    Seq::new(a.len(), |i: int| a[i]@)
}

fn all_zero_exec(b: &[u8]) -> (r: bool)
    ensures
        r == all_zero(b@),
{
    let mut i: usize = 0;
    while i < b.len()
        invariant
            i <= b@.len(),
            forall|j: int| 0 <= j < i ==> b@[j] == 0,
        decreases b@.len() - i,
    {
        if b[i] != 0 {
            return false;
        }
        i = i + 1;
    }
    true
}

fn has_prefix_exec(b: &[u8], p: &[u8]) -> (r: bool)
    ensures
        r == has_prefix(b@, p@),
{
    if p.len() > b.len() {
        return false;
    }
    let mut i: usize = 0;
    while i < p.len()
        invariant
            p@.len() <= b@.len(),
            i <= p@.len(),
            forall|j: int| 0 <= j < i ==> b@[j] == p@[j],
        decreases p@.len() - i,
    {
        if b[i] != p[i] {
            assert(b@.take(p@.len() as int)[i as int] != p@[i as int]);
            return false;
        }
        i = i + 1;
    }
    assert(b@.take(p@.len() as int) =~= p@);
    true
}

impl FeatureDef {
    /// Whether the bytes read from this feature's items (in the order of
    /// `reads`) count as disabled.
    pub fn is_disabled_fn(&self, arrays: &[&[u8]]) -> (r: bool)
        ensures
            r == disabled_by(rule_view(self.rule), slices_view(arrays@)),
    {
        match &self.rule {
            DisabledRule::FirstAllZero => arrays.len() == 0 || all_zero_exec(arrays[0]),
            DisabledRule::FirstTwoAllZero => arrays.len() >= 2 && all_zero_exec(arrays[0])
                && all_zero_exec(arrays[1]),
            DisabledRule::FirstPrefix(p) => arrays.len() == 0 || has_prefix_exec(arrays[0], p.as_slice()),
            DisabledRule::EachPrefix(ps) => {
                assert(rule_view(self.rule) == RuleModel::EachPrefix(ps.deep_view()));
                if arrays.len() < ps.len() {
                    return false;
                }
                let ghost pv = ps.deep_view();
                assert(pv.len() == ps@.len());
                let mut i: usize = 0;
                while i < ps.len()
                    invariant
                        i <= ps@.len(),
                        ps@.len() <= arrays@.len(),
                        pv == ps.deep_view(),
                        pv.len() == ps@.len(),
                        rule_view(self.rule) == RuleModel::EachPrefix(pv),
                        forall|j: int| 0 <= j < i ==> has_prefix(#[trigger] slices_view(arrays@)[j], pv[j]),
                    decreases ps@.len() - i,
                {
                    assert(ps@[i as int].deep_view() =~= ps@[i as int]@);
                    assert(pv[i as int] == ps@[i as int]@);
                    if !has_prefix_exec(arrays[i], ps[i].as_slice()) {
                        assert(slices_view(arrays@)[i as int] == arrays@[i as int]@);
                        assert(!has_prefix(slices_view(arrays@)[i as int], pv[i as int]));
                        return false;
                    }
                    i = i + 1;
                }
                true
            },
        }
    }
}

/// The feature with id `id`, if there is one.
pub fn find_feature(id: &str) -> (r: Option<FeatureDef>)
    ensures
        match r {
            None => forall|k: int| 0 <= k < feature_table().len() ==> (#[trigger] feature_table()[k]).id != id@,
            Some(f) => exists|k: int|
                0 <= k < feature_table().len() && feature_view(f) == #[trigger] feature_table()[k]
                    && feature_table()[k].id == id@ && forall|j: int|
                    0 <= j < k ==> (#[trigger] feature_table()[j]).id != id@,
        },
{
    let mut fs = all_features();
    let n = fs.len();
    let mut i: usize = 0;
    while i < n
        invariant
            n == fs@.len(),
            n == feature_table().len(),
            i <= n,
            forall|k: int| 0 <= k < n ==> feature_view(#[trigger] fs@[k]) == feature_table()[k],
            forall|k: int| 0 <= k < i ==> (#[trigger] feature_table()[k]).id != id@,
        decreases n - i,
    {
        if crate::text::str_eq(fs[i].id, id) {
            let ghost k = i as int;
            let f = fs.remove(i);
            assert(feature_view(f) == feature_table()[k]);
            return Some(f);
        }
        i = i + 1;
    }
    None
}

// ---------------------------------------------------------------------------
// Status
// ---------------------------------------------------------------------------

pub open spec fn reads_view(rs: Seq<EfsRead>) -> Seq<EfsReadModel> {
    Seq::new(rs.len(), |i: int| rs[i]@)
}

pub open spec fn any_read_error(rs: Seq<EfsReadModel>) -> bool {
    exists|i: int| 0 <= i < rs.len() && (#[trigger] rs[i]) is Error
}

pub open spec fn any_read_absent(rs: Seq<EfsReadModel>) -> bool {
    exists|i: int| 0 <= i < rs.len() && (#[trigger] rs[i]) is Absent
}

/// The bytes of each read, in order (empty for one that is not present).
pub open spec fn read_payloads(rs: Seq<EfsReadModel>) -> Seq<Seq<u8>> {
    Seq::new(
        rs.len(),
        |i: int|
            match rs[i] {
                EfsReadModel::Present(b) => b,
                _ => Seq::empty(),
            },
    )
}

/// A feature's status from the reads of its items: `"error"` when a read
/// failed, else `"absent"` when an item is absent, else `"disabled"` or
/// `"enabled"` as `is_disabled` says of the bytes read, passed in order.
pub fn classify_feature_status<F: Fn(&[&[u8]]) -> bool>(reads: &[EfsRead], is_disabled: &F) -> (r: &'static str)
    requires
        forall|a: &[&[u8]]| is_disabled.requires((a,)),
    ensures
        any_read_error(reads_view(reads@)) ==> r@ == "error"@,
        !any_read_error(reads_view(reads@)) && any_read_absent(reads_view(reads@)) ==> r@ == "absent"@,
        !any_read_error(reads_view(reads@)) && !any_read_absent(reads_view(reads@)) ==> exists|
            a: &[&[u8]],
            d: bool,
        |
            #![trigger is_disabled.ensures((a,), d)]
            slices_view(a@) == read_payloads(reads_view(reads@)) && is_disabled.ensures((a,), d)
                && r@ == (if d {
                "disabled"@
            } else {
                "enabled"@
            }),
{
    let ghost rv = reads_view(reads@);
    let mut i: usize = 0;
    while i < reads.len()
        invariant
            i <= reads@.len(),
            rv == reads_view(reads@),
            forall|j: int| 0 <= j < i ==> !(#[trigger] rv[j] is Error),
        decreases reads@.len() - i,
    {
        if let EfsRead::Error(_) = &reads[i] {
            assert(rv[i as int] is Error);
            return "error";
        }
        i = i + 1;
    }
    let mut slices: Vec<&[u8]> = Vec::new();
    let mut i: usize = 0;
    while i < reads.len()
        invariant
            i <= reads@.len(),
            rv == reads_view(reads@),
            !any_read_error(rv),
            slices@.len() == i,
            forall|j: int| 0 <= j < i ==> #[trigger] slices@[j]@ == read_payloads(rv)[j],
            forall|j: int| 0 <= j < i ==> !(#[trigger] rv[j] is Absent),
        decreases reads@.len() - i,
    {
        match &reads[i] {
            EfsRead::Present(b) => {
                slices.push(b.as_slice());
            },
            _ => {
                assert(rv[i as int] is Absent);
                return "absent";
            },
        }
        i = i + 1;
    }
    let d = is_disabled(slices.as_slice());
    assert(slices_view(slices@) =~= read_payloads(rv));
    if d {
        "disabled"
    } else {
        "enabled"
    }
}


/// A feature's status from the reads of its items: `"error"` when a read
/// failed, else `"absent"` when an item is absent, else `"disabled"` when the
/// bytes read satisfy its rule, else `"enabled"`.
pub open spec fn status_text(f: FeatureModel, rs: Seq<EfsReadModel>) -> Seq<char> {
    if any_read_error(rs) {
        "error"@
    } else if any_read_absent(rs) {
        "absent"@
    } else if disabled_by(f.rule, read_payloads(rs)) {
        "disabled"@
    } else {
        "enabled"@
    }
}

/// The status of feature `f` given the reads of its items, in the order of
/// its `reads`.
pub fn feature_status(f: &FeatureDef, reads: &[EfsRead]) -> (r: &'static str)
    ensures
        r@ == status_text(feature_view(*f), reads_view(reads@)),
{
    let rule = |arrays: &[&[u8]]| -> (d: bool)
        ensures
            d == disabled_by(rule_view(f.rule), slices_view(arrays@)),
        { f.is_disabled_fn(arrays) };
    let r = classify_feature_status(reads, &rule);
    proof {
        let rv = reads_view(reads@);
        if !any_read_error(rv) && !any_read_absent(rv) {
            let (a, d) = choose|a: &[&[u8]], d: bool|
            #![trigger rule.ensures((a,), d)]
                slices_view(a@) == read_payloads(rv) && rule.ensures((a,), d) && r@ == (if d {
                    "disabled"@
                } else {
                    "enabled"@
                });
            assert(d == disabled_by(rule_view(f.rule), read_payloads(rv)));
        }
    }
    r
}

/// A zero-byte rule holds only when every byte it looks at is zero: one
/// nonzero byte anywhere in the first item fails `FirstAllZero`, and one
/// anywhere in the first two items fails `FirstTwoAllZero`.
pub proof fn law_zero_rules_refuse_any_nonzero_byte(arrays: Seq<Seq<u8>>, k: int, i: int)
    requires
        0 <= k < arrays.len(),
        0 <= i < arrays[k].len(),
        arrays[k][i] != 0,
    ensures
        k == 0 ==> !disabled_by(RuleModel::FirstAllZero, arrays),
        k <= 1 ==> !disabled_by(RuleModel::FirstTwoAllZero, arrays),
{
}

/// A zero-byte rule holds when every byte it looks at is zero.
pub proof fn law_zero_rules_accept_all_zero(arrays: Seq<Seq<u8>>)
    requires
        arrays.len() >= 1,
        forall|i: int| 0 <= i < arrays[0].len() ==> #[trigger] arrays[0][i] == 0,
    ensures
        disabled_by(RuleModel::FirstAllZero, arrays),
        arrays.len() >= 2 && (forall|i: int| 0 <= i < arrays[1].len() ==> #[trigger] arrays[1][i] == 0)
            ==> disabled_by(RuleModel::FirstTwoAllZero, arrays),
{
}

/// A prefix rule holds exactly when the first item begins with the prefix's
/// bytes, position by position.
pub proof fn law_prefix_rule_compares_each_byte(arrays: Seq<Seq<u8>>, p: Seq<u8>)
    requires
        arrays.len() >= 1,
    ensures
        disabled_by(RuleModel::FirstPrefix(p), arrays) <==> (p.len() <= arrays[0].len() && forall|i: int|
            0 <= i < p.len() ==> #[trigger] arrays[0][i] == p[i]),
{
    if p.len() <= arrays[0].len() && forall|i: int| 0 <= i < p.len() ==> #[trigger] arrays[0][i] == p[i] {
        assert(arrays[0].take(p.len() as int) =~= p);
    }
    if disabled_by(RuleModel::FirstPrefix(p), arrays) {
        assert forall|i: int| 0 <= i < p.len() implies #[trigger] arrays[0][i] == p[i] by {
            assert(arrays[0].take(p.len() as int)[i] == arrays[0][i]);
        }
    }
}

// ---------------------------------------------------------------------------
// Failed reads
// ---------------------------------------------------------------------------

/// The paths whose read failed, each once, in the order first met
/// (`ps[i]` was read as `rs[i]`).
pub open spec fn failed_paths(ps: Seq<Seq<char>>, rs: Seq<EfsReadModel>) -> Seq<Seq<char>>
    decreases ps.len(),
{
    if ps.len() == 0 || rs.len() != ps.len() {
        Seq::empty()
    } else {
        let acc = failed_paths(ps.drop_last(), rs.drop_last());
        if rs.last() is Error && !acc.contains(ps.last()) {
            acc.push(ps.last())
        } else {
            acc
        }
    }
}

/// The paths whose read failed: `paths[i]` was read as `reads[i]`.
pub fn failed_read_paths(paths: &Vec<String>, reads: &Vec<EfsRead>) -> (r: Vec<String>)
    requires
        paths@.len() == reads@.len(),
    ensures
        strings_view(r@) == failed_paths(strings_view(paths@), reads_view(reads@)),
{
    let ghost ps = strings_view(paths@);
    let ghost rs = reads_view(reads@);
    let mut out: Vec<String> = Vec::new();
    let mut i: usize = 0;
    assert(strings_view(out@) =~= failed_paths(ps.take(0), rs.take(0)));
    while i < paths.len()
        invariant
            i <= paths@.len(),
            paths@.len() == reads@.len(),
            ps == strings_view(paths@),
            rs == reads_view(reads@),
            strings_view(out@) == failed_paths(ps.take(i as int), rs.take(i as int)),
        decreases paths@.len() - i,
    {
        assert(ps.take(i + 1).drop_last() =~= ps.take(i as int));
        assert(rs.take(i + 1).drop_last() =~= rs.take(i as int));
        assert(ps.take(i + 1).last() == paths@[i as int]@);
        assert(rs.take(i + 1).last() == reads@[i as int]@);
        if let EfsRead::Error(_) = &reads[i] {
            let ghost acc = strings_view(out@);
            let mut seen = false;
            let mut j: usize = 0;
            while j < out.len()
                invariant
                    j <= out@.len(),
                    i < paths@.len(),
                    acc == strings_view(out@),
                    seen == (exists|k: int| 0 <= k < j && acc[k] == paths@[i as int]@),
                decreases out@.len() - j,
            {
                assert(acc[j as int] == out@[j as int]@);
                if str_eq(out[j].as_str(), paths[i].as_str()) {
                    seen = true;
                }
                j = j + 1;
            }
            assert(seen == acc.contains(paths@[i as int]@));
            if !seen {
                out.push(paths[i].clone());
                assert(strings_view(out@) =~= acc.push(paths@[i as int]@));
            }
        }
        i = i + 1;
    }
    assert(ps.take(paths@.len() as int) =~= ps);
    assert(rs.take(paths@.len() as int) =~= rs);
    out
}

/// What a run of reads reports: nothing when no read failed, else
/// `"read failed for "` and the failed paths joined by `", "`.
pub open spec fn read_failure(failed: Seq<Seq<char>>) -> Option<Seq<char>> {
    if failed.len() == 0 {
        None
    } else {
        Some("read failed for "@ + join(failed, ", "@))
    }
}

pub fn read_failure_message(failed: &Vec<String>) -> (r: Option<String>)
    ensures
        match read_failure(strings_view(failed@)) {
            None => r is None,
            Some(m) => r matches Some(e) && e@ == m,
        },
{
    let ghost fs = strings_view(failed@);
    if failed.len() == 0 {
        return None;
    }
    let mut names = String::new();
    let mut i: usize = 0;
    while i < failed.len()
        invariant
            i <= failed@.len(),
            fs == strings_view(failed@),
            names@ == join(fs.take(i as int), ", "@),
        decreases failed@.len() - i,
    {
        assert(fs.take(i + 1).drop_last() =~= fs.take(i as int));
        assert(fs.take(i + 1).last() == failed@[i as int]@);
        if i > 0 {
            string_push_str(&mut names, ", ");
        } else {
            assert(fs.take(1) =~= seq![failed@[0]@]);
        }
        string_push_str(&mut names, failed[i].as_str());
        i = i + 1;
    }
    assert(fs.take(failed@.len() as int) =~= fs);
    let mut m = string_from_str("read failed for ");
    string_push_str(&mut m, names.as_str());
    Some(m)
}

} // verus!
