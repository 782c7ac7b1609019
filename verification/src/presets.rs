//! The preset configuration lists: the stock tag lists that mark
//! processed audio files, and the stock tie-break orders that pick
//! which duplicate to keep — each both in the display text form the
//! presentation layer shows and edits, and in the structured rule
//! form the grouping engine consumes.

use vstd::prelude::*;
use crate::rules::RuleModel;
use crate::rules::TieBreakRule;

verus! {

/// The texts of [`default_tags`], as character sequences.
pub open spec fn default_tags_model() -> Seq<Seq<char>> {
    seq![
        "-6030_"@,
        "-7eqa_"@,
        "-A2sA_"@,
        "-A44m_"@,
        "-A44s_"@,
        "-Alt7S_"@,
        "-ASMA_"@,
        "-AVrP_"@,
        "-AVrT_"@,
        "-AVSt_"@,
        "-DEC4_"@,
        "-Delays_"@,
        "-Dn_"@,
        "-DUPL_"@,
        "-DVerb_"@,
        "-GAIN_"@,
        "-M2DN_"@,
        "-NORM_"@,
        "-NYCT_"@,
        "-PiSh_"@,
        "-PnT2_"@,
        "-PnTPro_"@,
        "-ProQ2_"@,
        "-PSh_"@,
        "-Reverse_"@,
        "-RVRS_"@,
        "-RING_"@,
        "-RX7Cnct_"@,
        "-spce_"@,
        "-TCEX_"@,
        "-TiSh_"@,
        "-TmShft_"@,
        "-VariFi_"@,
        "-VlhllVV_"@,
        "-VSPD_"@,
        "-VitmnMn_"@,
        "-VtmnStr_"@,
        "-X2mA_"@,
        "-X2sA_"@,
        "-XForm_"@,
        "-Z2N5_"@,
        "-Z2S5_"@,
        "-Z4n2_"@,
        "-ZXN5_"@,
    ]
}

/// The stock list of filename tags that audio processing plugins
/// append to rendered files.
pub fn default_tags() -> (r: Vec<String>)
    ensures
        r.deep_view() == default_tags_model(),
{
    let mut v: Vec<String> = Vec::new();
    v.push(String::from_str("-6030_"));
    v.push(String::from_str("-7eqa_"));
    v.push(String::from_str("-A2sA_"));
    v.push(String::from_str("-A44m_"));
    v.push(String::from_str("-A44s_"));
    v.push(String::from_str("-Alt7S_"));
    v.push(String::from_str("-ASMA_"));
    v.push(String::from_str("-AVrP_"));
    v.push(String::from_str("-AVrT_"));
    v.push(String::from_str("-AVSt_"));
    v.push(String::from_str("-DEC4_"));
    v.push(String::from_str("-Delays_"));
    v.push(String::from_str("-Dn_"));
    v.push(String::from_str("-DUPL_"));
    v.push(String::from_str("-DVerb_"));
    v.push(String::from_str("-GAIN_"));
    v.push(String::from_str("-M2DN_"));
    v.push(String::from_str("-NORM_"));
    v.push(String::from_str("-NYCT_"));
    v.push(String::from_str("-PiSh_"));
    v.push(String::from_str("-PnT2_"));
    v.push(String::from_str("-PnTPro_"));
    v.push(String::from_str("-ProQ2_"));
    v.push(String::from_str("-PSh_"));
    v.push(String::from_str("-Reverse_"));
    v.push(String::from_str("-RVRS_"));
    v.push(String::from_str("-RING_"));
    v.push(String::from_str("-RX7Cnct_"));
    v.push(String::from_str("-spce_"));
    v.push(String::from_str("-TCEX_"));
    v.push(String::from_str("-TiSh_"));
    v.push(String::from_str("-TmShft_"));
    v.push(String::from_str("-VariFi_"));
    v.push(String::from_str("-VlhllVV_"));
    v.push(String::from_str("-VSPD_"));
    v.push(String::from_str("-VitmnMn_"));
    v.push(String::from_str("-VtmnStr_"));
    v.push(String::from_str("-X2mA_"));
    v.push(String::from_str("-X2sA_"));
    v.push(String::from_str("-XForm_"));
    v.push(String::from_str("-Z2N5_"));
    v.push(String::from_str("-Z2S5_"));
    v.push(String::from_str("-Z4n2_"));
    v.push(String::from_str("-ZXN5_"));
    proof {
        assert(v.deep_view() =~= default_tags_model()) by {
            assert(forall|k: int|
                0 <= k < v@.len() ==> #[trigger] v.deep_view()[k] == v@[k]@);
        }
    }
    v
}

/// The texts of [`tjf_tags`], as character sequences.
pub open spec fn tjf_tags_model() -> Seq<Seq<char>> {
    seq![
        "-6030_"@,
        "-7eqa_"@,
        "-A2sA_"@,
        "-A44m_"@,
        "-A44s_"@,
        "-Alt7S_"@,
        "-ASMA_"@,
        "-AVrP_"@,
        "-AVrT_"@,
        "-AVSt_"@,
        "-DEC4_"@,
        "-Delays_"@,
        "-Dn_"@,
        "-DUPL_"@,
        "-DVerb_"@,
        "-GAIN_"@,
        "-M2DN_"@,
        "-NORM_"@,
        "-NYCT_"@,
        "-PiSh_"@,
        "-PnT2_"@,
        "-PnTPro_"@,
        "-ProQ2_"@,
        "-PSh_"@,
        "-Reverse_"@,
        "-RVRS_"@,
        "-RING_"@,
        "-RX7Cnct_"@,
        "-spce_"@,
        "-TCEX_"@,
        "-TiSh_"@,
        "-TmShft_"@,
        "-VariFi_"@,
        "-VlhllVV_"@,
        "-VSPD_"@,
        "-VitmnMn_"@,
        "-VtmnStr_"@,
        "-X2mA_"@,
        "-X2sA_"@,
        "-XForm_"@,
        "-Z2N5_"@,
        "-Z2S5_"@,
        "-Z4n2_"@,
        "-ZXN5_"@,
        ".new."@,
        ".aif."@,
        ".mp3."@,
        ".wav."@,
    ]
}

/// The alternate tag preset: the stock tags plus doubled-extension
/// patterns.
pub fn tjf_tags() -> (r: Vec<String>)
    ensures
        r.deep_view() == tjf_tags_model(),
{
    let mut v: Vec<String> = Vec::new();
    v.push(String::from_str("-6030_"));
    v.push(String::from_str("-7eqa_"));
    v.push(String::from_str("-A2sA_"));
    v.push(String::from_str("-A44m_"));
    v.push(String::from_str("-A44s_"));
    v.push(String::from_str("-Alt7S_"));
    v.push(String::from_str("-ASMA_"));
    v.push(String::from_str("-AVrP_"));
    v.push(String::from_str("-AVrT_"));
    v.push(String::from_str("-AVSt_"));
    v.push(String::from_str("-DEC4_"));
    v.push(String::from_str("-Delays_"));
    v.push(String::from_str("-Dn_"));
    v.push(String::from_str("-DUPL_"));
    v.push(String::from_str("-DVerb_"));
    v.push(String::from_str("-GAIN_"));
    v.push(String::from_str("-M2DN_"));
    v.push(String::from_str("-NORM_"));
    v.push(String::from_str("-NYCT_"));
    v.push(String::from_str("-PiSh_"));
    v.push(String::from_str("-PnT2_"));
    v.push(String::from_str("-PnTPro_"));
    v.push(String::from_str("-ProQ2_"));
    v.push(String::from_str("-PSh_"));
    v.push(String::from_str("-Reverse_"));
    v.push(String::from_str("-RVRS_"));
    v.push(String::from_str("-RING_"));
    v.push(String::from_str("-RX7Cnct_"));
    v.push(String::from_str("-spce_"));
    v.push(String::from_str("-TCEX_"));
    v.push(String::from_str("-TiSh_"));
    v.push(String::from_str("-TmShft_"));
    v.push(String::from_str("-VariFi_"));
    v.push(String::from_str("-VlhllVV_"));
    v.push(String::from_str("-VSPD_"));
    v.push(String::from_str("-VitmnMn_"));
    v.push(String::from_str("-VtmnStr_"));
    v.push(String::from_str("-X2mA_"));
    v.push(String::from_str("-X2sA_"));
    v.push(String::from_str("-XForm_"));
    v.push(String::from_str("-Z2N5_"));
    v.push(String::from_str("-Z2S5_"));
    v.push(String::from_str("-Z4n2_"));
    v.push(String::from_str("-ZXN5_"));
    v.push(String::from_str(".new."));
    v.push(String::from_str(".aif."));
    v.push(String::from_str(".mp3."));
    v.push(String::from_str(".wav."));
    proof {
        assert(v.deep_view() =~= tjf_tags_model()) by {
            assert(forall|k: int|
                0 <= k < v@.len() ==> #[trigger] v.deep_view()[k] == v@[k]@);
        }
    }
    v
}

/// The texts of [`default_order`], as character sequences.
pub open spec fn default_order_model() -> Seq<Seq<char>> {
    seq![
        "CASE WHEN Description IS NOT NULL AND Description != '' THEN 0 ELSE 1 END ASC"@,
        "CASE WHEN pathname LIKE '%Audio Files%' THEN 1 ELSE 0 END ASC"@,
        "CASE WHEN pathname LIKE '%LIBRARIES%' THEN 0 ELSE 1 END ASC"@,
        "CASE WHEN pathname LIKE '%LIBRARY%' THEN 0 ELSE 1 END ASC"@,
        "CASE WHEN pathname LIKE '%/LIBRARY%' THEN 0 ELSE 1 END ASC"@,
        "CASE WHEN pathname LIKE '%LIBRARY/%' THEN 0 ELSE 1 END ASC"@,
        "duration DESC"@,
        "channels DESC"@,
        "sampleRate DESC"@,
        "bitDepth DESC"@,
        "BWDate ASC"@,
        "scannedDate ASC"@,
    ]
}

/// The stock keeper-priority order, in the display text form the
/// presentation layer shows and edits.
pub fn default_order() -> (r: Vec<String>)
    ensures
        r.deep_view() == default_order_model(),
{
    let mut v: Vec<String> = Vec::new();
    v.push(String::from_str("CASE WHEN Description IS NOT NULL AND Description != '' THEN 0 ELSE 1 END ASC"));
    v.push(String::from_str("CASE WHEN pathname LIKE '%Audio Files%' THEN 1 ELSE 0 END ASC"));
    v.push(String::from_str("CASE WHEN pathname LIKE '%LIBRARIES%' THEN 0 ELSE 1 END ASC"));
    v.push(String::from_str("CASE WHEN pathname LIKE '%LIBRARY%' THEN 0 ELSE 1 END ASC"));
    v.push(String::from_str("CASE WHEN pathname LIKE '%/LIBRARY%' THEN 0 ELSE 1 END ASC"));
    v.push(String::from_str("CASE WHEN pathname LIKE '%LIBRARY/%' THEN 0 ELSE 1 END ASC"));
    v.push(String::from_str("duration DESC"));
    v.push(String::from_str("channels DESC"));
    v.push(String::from_str("sampleRate DESC"));
    v.push(String::from_str("bitDepth DESC"));
    v.push(String::from_str("BWDate ASC"));
    v.push(String::from_str("scannedDate ASC"));
    proof {
        assert(v.deep_view() =~= default_order_model()) by {
            assert(forall|k: int|
                0 <= k < v@.len() ==> #[trigger] v.deep_view()[k] == v@[k]@);
        }
    }
    v
}

/// The texts of [`tjf_order`], as character sequences.
pub open spec fn tjf_order_model() -> Seq<Seq<char>> {
    seq![
        "CASE WHEN pathname LIKE '%TJF RECORDINGS%' THEN 0 ELSE 1 END ASC"@,
        "CASE WHEN pathname LIKE '%LIBRARIES%' THEN 0 ELSE 1 END ASC"@,
        "CASE WHEN pathname LIKE '%SHOWS/Tim Farrell%' THEN 1 ELSE 0 END ASC"@,
        "CASE WHEN Description IS NOT NULL AND Description != '' THEN 0 ELSE 1 END ASC"@,
        "CASE WHEN pathname LIKE '%Audio Files%' THEN 1 ELSE 0 END ASC"@,
        "CASE WHEN pathname LIKE '%RECORD%' THEN 0 ELSE 1 END ASC"@,
        "CASE WHEN pathname LIKE '%CREATED SFX%' THEN 0 ELSE 1 END ASC"@,
        "CASE WHEN pathname LIKE '%CREATED FX%' THEN 0 ELSE 1 END ASC"@,
        "CASE WHEN pathname LIKE '%LIBRARY%' THEN 0 ELSE 1 END ASC"@,
        "CASE WHEN pathname LIKE '%/LIBRARY%' THEN 0 ELSE 1 END ASC"@,
        "CASE WHEN pathname LIKE '%LIBRARY/%' THEN 0 ELSE 1 END ASC"@,
        "CASE WHEN pathname LIKE '%SIGNATURE%' THEN 0 ELSE 1 END ASC"@,
        "CASE WHEN pathname LIKE '%PULLS%' THEN 0 ELSE 1 END ASC"@,
        "CASE WHEN pathname LIKE '%EDIT%' THEN 1 ELSE 0 END ASC"@,
        "CASE WHEN pathname LIKE '%MIX%' THEN 1 ELSE 0 END ASC"@,
        "CASE WHEN pathname LIKE '%SESSION%' THEN 1 ELSE 0 END ASC"@,
        "duration DESC"@,
        "channels DESC"@,
        "sampleRate DESC"@,
        "bitDepth DESC"@,
        "BWDate ASC"@,
        "scannedDate ASC"@,
    ]
}

/// The alternate keeper-priority order, in display text form.
pub fn tjf_order() -> (r: Vec<String>)
    ensures
        r.deep_view() == tjf_order_model(),
{
    let mut v: Vec<String> = Vec::new();
    v.push(String::from_str("CASE WHEN pathname LIKE '%TJF RECORDINGS%' THEN 0 ELSE 1 END ASC"));
    v.push(String::from_str("CASE WHEN pathname LIKE '%LIBRARIES%' THEN 0 ELSE 1 END ASC"));
    v.push(String::from_str("CASE WHEN pathname LIKE '%SHOWS/Tim Farrell%' THEN 1 ELSE 0 END ASC"));
    v.push(String::from_str("CASE WHEN Description IS NOT NULL AND Description != '' THEN 0 ELSE 1 END ASC"));
    v.push(String::from_str("CASE WHEN pathname LIKE '%Audio Files%' THEN 1 ELSE 0 END ASC"));
    v.push(String::from_str("CASE WHEN pathname LIKE '%RECORD%' THEN 0 ELSE 1 END ASC"));
    v.push(String::from_str("CASE WHEN pathname LIKE '%CREATED SFX%' THEN 0 ELSE 1 END ASC"));
    v.push(String::from_str("CASE WHEN pathname LIKE '%CREATED FX%' THEN 0 ELSE 1 END ASC"));
    v.push(String::from_str("CASE WHEN pathname LIKE '%LIBRARY%' THEN 0 ELSE 1 END ASC"));
    v.push(String::from_str("CASE WHEN pathname LIKE '%/LIBRARY%' THEN 0 ELSE 1 END ASC"));
    v.push(String::from_str("CASE WHEN pathname LIKE '%LIBRARY/%' THEN 0 ELSE 1 END ASC"));
    v.push(String::from_str("CASE WHEN pathname LIKE '%SIGNATURE%' THEN 0 ELSE 1 END ASC"));
    v.push(String::from_str("CASE WHEN pathname LIKE '%PULLS%' THEN 0 ELSE 1 END ASC"));
    v.push(String::from_str("CASE WHEN pathname LIKE '%EDIT%' THEN 1 ELSE 0 END ASC"));
    v.push(String::from_str("CASE WHEN pathname LIKE '%MIX%' THEN 1 ELSE 0 END ASC"));
    v.push(String::from_str("CASE WHEN pathname LIKE '%SESSION%' THEN 1 ELSE 0 END ASC"));
    v.push(String::from_str("duration DESC"));
    v.push(String::from_str("channels DESC"));
    v.push(String::from_str("sampleRate DESC"));
    v.push(String::from_str("bitDepth DESC"));
    v.push(String::from_str("BWDate ASC"));
    v.push(String::from_str("scannedDate ASC"));
    proof {
        assert(v.deep_view() =~= tjf_order_model()) by {
            assert(forall|k: int|
                0 <= k < v@.len() ==> #[trigger] v.deep_view()[k] == v@[k]@);
        }
    }
    v
}

/// The rules of [`default_order_rules`], as models.
pub open spec fn default_order_rules_model() -> Seq<RuleModel> {
    seq![
        RuleModel::NonEmptyFirst { name: "Description"@ },
        RuleModel::Prefer { name: "pathname"@, pattern: "Audio Files"@, matching_first: false },
        RuleModel::Prefer { name: "pathname"@, pattern: "LIBRARIES"@, matching_first: true },
        RuleModel::Prefer { name: "pathname"@, pattern: "LIBRARY"@, matching_first: true },
        RuleModel::Prefer { name: "pathname"@, pattern: "/LIBRARY"@, matching_first: true },
        RuleModel::Prefer { name: "pathname"@, pattern: "LIBRARY/"@, matching_first: true },
        RuleModel::Column { name: "duration"@, descending: true },
        RuleModel::Column { name: "channels"@, descending: true },
        RuleModel::Column { name: "sampleRate"@, descending: true },
        RuleModel::Column { name: "bitDepth"@, descending: true },
        RuleModel::Column { name: "BWDate"@, descending: false },
        RuleModel::Column { name: "scannedDate"@, descending: false },
    ]
}

/// The stock keeper-priority order as structured tie-break rules:
/// what each line of [`default_order`] asks of the grouping engine.
pub fn default_order_rules() -> (r: Vec<TieBreakRule>)
    ensures
        r.deep_view() == default_order_rules_model(),
{
    let mut v: Vec<TieBreakRule> = Vec::new();
    v.push(TieBreakRule::NonEmptyFirst { name: String::from_str("Description") });
    v.push(TieBreakRule::Prefer { name: String::from_str("pathname"), pattern: String::from_str("Audio Files"), matching_first: false });
    v.push(TieBreakRule::Prefer { name: String::from_str("pathname"), pattern: String::from_str("LIBRARIES"), matching_first: true });
    v.push(TieBreakRule::Prefer { name: String::from_str("pathname"), pattern: String::from_str("LIBRARY"), matching_first: true });
    v.push(TieBreakRule::Prefer { name: String::from_str("pathname"), pattern: String::from_str("/LIBRARY"), matching_first: true });
    v.push(TieBreakRule::Prefer { name: String::from_str("pathname"), pattern: String::from_str("LIBRARY/"), matching_first: true });
    v.push(TieBreakRule::Column { name: String::from_str("duration"), descending: true });
    v.push(TieBreakRule::Column { name: String::from_str("channels"), descending: true });
    v.push(TieBreakRule::Column { name: String::from_str("sampleRate"), descending: true });
    v.push(TieBreakRule::Column { name: String::from_str("bitDepth"), descending: true });
    v.push(TieBreakRule::Column { name: String::from_str("BWDate"), descending: false });
    v.push(TieBreakRule::Column { name: String::from_str("scannedDate"), descending: false });
    proof {
        assert(v.deep_view() =~= default_order_rules_model()) by {
            assert(forall|k: int|
                0 <= k < v@.len() ==> #[trigger] v.deep_view()[k] == v@[k]@);
        }
    }
    v
}

/// The rules of [`tjf_order_rules`], as models.
pub open spec fn tjf_order_rules_model() -> Seq<RuleModel> {
    seq![
        RuleModel::Prefer { name: "pathname"@, pattern: "TJF RECORDINGS"@, matching_first: true },
        RuleModel::Prefer { name: "pathname"@, pattern: "LIBRARIES"@, matching_first: true },
        RuleModel::Prefer { name: "pathname"@, pattern: "SHOWS/Tim Farrell"@, matching_first: false },
        RuleModel::NonEmptyFirst { name: "Description"@ },
        RuleModel::Prefer { name: "pathname"@, pattern: "Audio Files"@, matching_first: false },
        RuleModel::Prefer { name: "pathname"@, pattern: "RECORD"@, matching_first: true },
        RuleModel::Prefer { name: "pathname"@, pattern: "CREATED SFX"@, matching_first: true },
        RuleModel::Prefer { name: "pathname"@, pattern: "CREATED FX"@, matching_first: true },
        RuleModel::Prefer { name: "pathname"@, pattern: "LIBRARY"@, matching_first: true },
        RuleModel::Prefer { name: "pathname"@, pattern: "/LIBRARY"@, matching_first: true },
        RuleModel::Prefer { name: "pathname"@, pattern: "LIBRARY/"@, matching_first: true },
        RuleModel::Prefer { name: "pathname"@, pattern: "SIGNATURE"@, matching_first: true },
        RuleModel::Prefer { name: "pathname"@, pattern: "PULLS"@, matching_first: true },
        RuleModel::Prefer { name: "pathname"@, pattern: "EDIT"@, matching_first: false },
        RuleModel::Prefer { name: "pathname"@, pattern: "MIX"@, matching_first: false },
        RuleModel::Prefer { name: "pathname"@, pattern: "SESSION"@, matching_first: false },
        RuleModel::Column { name: "duration"@, descending: true },
        RuleModel::Column { name: "channels"@, descending: true },
        RuleModel::Column { name: "sampleRate"@, descending: true },
        RuleModel::Column { name: "bitDepth"@, descending: true },
        RuleModel::Column { name: "BWDate"@, descending: false },
        RuleModel::Column { name: "scannedDate"@, descending: false },
    ]
}

/// The alternate keeper-priority order as structured tie-break
/// rules: what each line of [`tjf_order`] asks of the grouping
/// engine.
pub fn tjf_order_rules() -> (r: Vec<TieBreakRule>)
    ensures
        r.deep_view() == tjf_order_rules_model(),
{
    let mut v: Vec<TieBreakRule> = Vec::new();
    v.push(TieBreakRule::Prefer { name: String::from_str("pathname"), pattern: String::from_str("TJF RECORDINGS"), matching_first: true });
    v.push(TieBreakRule::Prefer { name: String::from_str("pathname"), pattern: String::from_str("LIBRARIES"), matching_first: true });
    v.push(TieBreakRule::Prefer { name: String::from_str("pathname"), pattern: String::from_str("SHOWS/Tim Farrell"), matching_first: false });
    v.push(TieBreakRule::NonEmptyFirst { name: String::from_str("Description") });
    v.push(TieBreakRule::Prefer { name: String::from_str("pathname"), pattern: String::from_str("Audio Files"), matching_first: false });
    v.push(TieBreakRule::Prefer { name: String::from_str("pathname"), pattern: String::from_str("RECORD"), matching_first: true });
    v.push(TieBreakRule::Prefer { name: String::from_str("pathname"), pattern: String::from_str("CREATED SFX"), matching_first: true });
    v.push(TieBreakRule::Prefer { name: String::from_str("pathname"), pattern: String::from_str("CREATED FX"), matching_first: true });
    v.push(TieBreakRule::Prefer { name: String::from_str("pathname"), pattern: String::from_str("LIBRARY"), matching_first: true });
    v.push(TieBreakRule::Prefer { name: String::from_str("pathname"), pattern: String::from_str("/LIBRARY"), matching_first: true });
    v.push(TieBreakRule::Prefer { name: String::from_str("pathname"), pattern: String::from_str("LIBRARY/"), matching_first: true });
    v.push(TieBreakRule::Prefer { name: String::from_str("pathname"), pattern: String::from_str("SIGNATURE"), matching_first: true });
    v.push(TieBreakRule::Prefer { name: String::from_str("pathname"), pattern: String::from_str("PULLS"), matching_first: true });
    v.push(TieBreakRule::Prefer { name: String::from_str("pathname"), pattern: String::from_str("EDIT"), matching_first: false });
    v.push(TieBreakRule::Prefer { name: String::from_str("pathname"), pattern: String::from_str("MIX"), matching_first: false });
    v.push(TieBreakRule::Prefer { name: String::from_str("pathname"), pattern: String::from_str("SESSION"), matching_first: false });
    v.push(TieBreakRule::Column { name: String::from_str("duration"), descending: true });
    v.push(TieBreakRule::Column { name: String::from_str("channels"), descending: true });
    v.push(TieBreakRule::Column { name: String::from_str("sampleRate"), descending: true });
    v.push(TieBreakRule::Column { name: String::from_str("bitDepth"), descending: true });
    v.push(TieBreakRule::Column { name: String::from_str("BWDate"), descending: false });
    v.push(TieBreakRule::Column { name: String::from_str("scannedDate"), descending: false });
    proof {
        assert(v.deep_view() =~= tjf_order_rules_model()) by {
            assert(forall|k: int|
                0 <= k < v@.len() ==> #[trigger] v.deep_view()[k] == v@[k]@);
        }
    }
    v
}

} // verus!
