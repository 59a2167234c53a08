use vstd::prelude::*;
use crate::preset::ExportPreset;
use crate::text::{decimal, push_decimal, push_str, string_from_chars};

verus! {

/// A finding that does not block an export.
pub struct ValidationWarning {
    pub code: String,
    pub message: String,
}

/// A finding that blocks an export.
pub struct ValidationError {
    pub code: String,
    pub message: String,
}

/// The findings on a video against a preset; `valid` when there is no error.
pub struct ValidationResult {
    pub valid: bool,
    pub warnings: Vec<ValidationWarning>,
    pub errors: Vec<ValidationError>,
}

/// A finding as code and message.
pub type Finding = (Seq<char>, Seq<char>);

/// `width / height` differs from 9/16 by more than 0.01.
pub open spec fn aspect_off(width: nat, height: nat) -> bool {
    let diff = 1600 * width - 900 * height;
    (if diff >= 0 { diff } else { -diff }) > 16 * height
}

/// `width / height` to two decimal places, ties to even; `inf` when height is zero.
pub open spec fn ratio_2dp(width: nat, height: nat) -> Seq<char> {
    if height == 0 {
        "inf"@
    } else {
        let t = 100 * width;
        let q = t / height;
        let rem = t % height;
        let r = if 2 * rem > height || (2 * rem == height && q % 2 == 1) {
            q + 1
        } else {
            q
        };
        let frac = r % 100;
        decimal(r / 100) + seq!['.'] + (if frac < 10 {
            seq!['0']
        } else {
            Seq::empty()
        }) + decimal(frac)
    }
}

pub open spec fn exceeded_message(secs: nat, preset: ExportPreset) -> Seq<char> {
    "動画の長さ("@ + decimal(secs) + "秒)が"@ + preset.display_name@ + "の最大長("@ + decimal(
        preset.max_duration_sec as nat,
    ) + ")秒を超えています"@
}

pub open spec fn long_message(secs: nat, recommended: nat, preset: ExportPreset) -> Seq<char> {
    preset.display_name@ + "では"@ + decimal(recommended) + "秒以下が推奨されています（現在: "@
        + decimal(secs) + "秒）"@
}

pub open spec fn resolution_message(width: nat, height: nat, preset: ExportPreset) -> Seq<char> {
    "解像度("@ + decimal(width) + "x"@ + decimal(height) + ")が"@ + preset.display_name@
        + "の推奨("@ + decimal(preset.resolution.width as nat) + "x"@ + decimal(
        preset.resolution.height as nat,
    ) + ")と異なります"@
}

pub open spec fn aspect_message(width: nat, height: nat) -> Seq<char> {
    "アスペクト比が9:16ではありません（現在: "@ + ratio_2dp(width, height) + "）"@
}

/// The blocking findings, in order: a duration over the preset's maximum (whole
/// seconds), then an aspect ratio away from 9:16.
pub open spec fn expected_errors(duration_ms: nat, width: nat, height: nat, preset: ExportPreset) -> Seq<Finding> {
    let secs = duration_ms / 1000;
    (if secs > preset.max_duration_sec {
        seq![("DURATION_EXCEEDED"@, exceeded_message(secs, preset))]
    } else {
        Seq::empty()
    }) + (if aspect_off(width, height) {
        seq![("ASPECT_RATIO"@, aspect_message(width, height))]
    } else {
        Seq::empty()
    })
}

/// The other findings, in order: a duration over the recommended one, then a
/// resolution other than the preset's.
pub open spec fn expected_warnings(duration_ms: nat, width: nat, height: nat, preset: ExportPreset) -> Seq<Finding> {
    let secs = duration_ms / 1000;
    (match preset.recommended_duration_sec {
        Some(rec) if secs > rec => seq![("DURATION_LONG"@, long_message(secs, rec as nat, preset))],
        _ => Seq::empty(),
    }) + (if width != preset.resolution.width || height != preset.resolution.height {
        seq![("RESOLUTION_MISMATCH"@, resolution_message(width, height, preset))]
    } else {
        Seq::empty()
    })
}

pub open spec fn warning_findings(v: Seq<ValidationWarning>) -> Seq<Finding> {
    v.map_values(|w: ValidationWarning| (w.code@, w.message@))
}

pub open spec fn error_findings(v: Seq<ValidationError>) -> Seq<Finding> {
    v.map_values(|e: ValidationError| (e.code@, e.message@))
}

fn ratio_text(out: &mut Vec<char>, width: u32, height: u32)
    ensures
        final(out)@ == old(out)@ + ratio_2dp(width as nat, height as nat),
{
    if height == 0 {
        push_str(out, "inf");
        return;
    }
    let t: u64 = 100 * width as u64;
    let h = height as u64;
    let q = t / h;
    let rem = t % h;
    let r = if 2 * rem > h || (2 * rem == h && q % 2 == 1) {
        q + 1
    } else {
        q
    };
    push_decimal(out, r / 100);
    out.push('.');
    let frac = r % 100;
    if frac < 10 {
        out.push('0');
    }
    push_decimal(out, frac);
    assert(final(out)@ =~= old(out)@ + ratio_2dp(width as nat, height as nat));
}

/// Checks a video of `duration_ms`, `width` by `height`, against `preset`.
pub fn validate_for_export(duration_ms: u64, width: u32, height: u32, preset: &ExportPreset) -> (r:
    ValidationResult)
    ensures
        error_findings(r.errors@) == expected_errors(duration_ms as nat, width as nat, height as nat, *preset),
        warning_findings(r.warnings@) == expected_warnings(duration_ms as nat, width as nat, height as nat, *preset),
        r.valid == (r.errors@.len() == 0),
{
    let mut warnings: Vec<ValidationWarning> = Vec::new();
    let mut errors: Vec<ValidationError> = Vec::new();
    let duration_sec = duration_ms / 1000;
    if duration_sec > preset.max_duration_sec {
        let mut m: Vec<char> = Vec::new();
        push_str(&mut m, "動画の長さ(");
        push_decimal(&mut m, duration_sec);
        push_str(&mut m, "秒)が");
        push_str(&mut m, preset.display_name.as_str());
        push_str(&mut m, "の最大長(");
        push_decimal(&mut m, preset.max_duration_sec);
        push_str(&mut m, ")秒を超えています");
        errors.push(ValidationError { code: String::from_str("DURATION_EXCEEDED"), message: string_from_chars(&m) });
    }
    let ghost e1 = errors@;
    if let Some(recommended) = preset.recommended_duration_sec {
        if duration_sec > recommended {
            let mut m: Vec<char> = Vec::new();
            push_str(&mut m, preset.display_name.as_str());
            push_str(&mut m, "では");
            push_decimal(&mut m, recommended);
            push_str(&mut m, "秒以下が推奨されています（現在: ");
            push_decimal(&mut m, duration_sec);
            push_str(&mut m, "秒）");
            warnings.push(ValidationWarning { code: String::from_str("DURATION_LONG"), message: string_from_chars(&m) });
        }
    }
    let ghost w1 = warnings@;
    if width != preset.resolution.width || height != preset.resolution.height {
        let mut m: Vec<char> = Vec::new();
        push_str(&mut m, "解像度(");
        push_decimal(&mut m, width as u64);
        push_str(&mut m, "x");
        push_decimal(&mut m, height as u64);
        push_str(&mut m, ")が");
        push_str(&mut m, preset.display_name.as_str());
        push_str(&mut m, "の推奨(");
        push_decimal(&mut m, preset.resolution.width as u64);
        push_str(&mut m, "x");
        push_decimal(&mut m, preset.resolution.height as u64);
        push_str(&mut m, ")と異なります");
        warnings.push(ValidationWarning { code: String::from_str("RESOLUTION_MISMATCH"), message: string_from_chars(&m) });
    }
    let a = 1600 * width as u64;
    let b = 900 * height as u64;
    let diff = if a >= b { a - b } else { b - a };
    if diff > 16 * height as u64 {
        let mut m: Vec<char> = Vec::new();
        push_str(&mut m, "アスペクト比が9:16ではありません（現在: ");
        ratio_text(&mut m, width, height);
        push_str(&mut m, "）");
        errors.push(ValidationError { code: String::from_str("ASPECT_RATIO"), message: string_from_chars(&m) });
    }
    assert(error_findings(errors@) =~= expected_errors(duration_ms as nat, width as nat, height as nat, *preset));
    assert(warning_findings(warnings@) =~= expected_warnings(duration_ms as nat, width as nat, height as nat, *preset));
    let valid = errors.len() == 0;
    ValidationResult { valid, warnings, errors }
}

} // verus!
