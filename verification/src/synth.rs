//! Filter-chain synthesis: combines the settings template with the parsed
//! measurement. A template naming the two-pass correction filter gets the
//! five measured statistics appended as sub-parameters; any other template
//! gets a gain-adjustment stage prepended when a non-neutral adjustment was
//! measured.

use vstd::prelude::*;
use crate::loudnorm::{LoudnormMeasurement, LoudnormFields};
use crate::settings::DpcNormSettings;
use crate::text::{has_sub, contains_substring, str_eq};
use crate::volume::{VolumeMeasurement, VolumeFields, adjustment_of};

verus! {

/// The measurement a run produced, tagged by the strategy that produced it.
pub enum Measurement {
    Loudnorm(LoudnormMeasurement),
    Volume(VolumeMeasurement),
}

/// Mathematical image of a measurement of either strategy.
pub enum MeasurementView {
    Loudnorm(LoudnormFields),
    Volume(VolumeFields),
}

impl View for Measurement {
    type V = MeasurementView;

    open spec fn view(&self) -> MeasurementView {
        match self {
            Measurement::Loudnorm(m) => MeasurementView::Loudnorm(m@),
            Measurement::Volume(m) => MeasurementView::Volume(m@),
        }
    }
}

/// Whether a settings template selects the two-pass measured-loudness
/// strategy: it names the two-pass correction filter.
pub open spec fn uses_two_pass(base: Seq<char>) -> bool {
    has_sub(base, "loudnorm"@)
}

/// Decides the strategy for a settings value.
pub fn settings_use_two_pass(settings: &DpcNormSettings) -> (r: bool)
    ensures
        r == uses_two_pass(settings.base_filter_params@),
{
    contains_substring(settings.base_filter_params.as_str(), "loudnorm")
}

/// The two-pass chain: the template followed by the five measured
/// statistics as named sub-parameters, in fixed order, and the linear flag.
pub open spec fn two_pass_chain(base: Seq<char>, m: LoudnormFields) -> Seq<char> {
    base + ":measured_I="@ + m.output_i + ":measured_LRA="@ + m.output_lra + ":measured_TP="@
        + m.output_tp + ":measured_thresh="@ + m.output_thresh + ":offset="@ + m.target_offset
        + ":linear=true"@
}

/// The single-pass chain: a gain-adjustment stage ahead of the template
/// when the adjustment is not the neutral `0`, and the template alone
/// otherwise.
pub open spec fn single_pass_chain(base: Seq<char>, adjustment: Seq<char>) -> Seq<char> {
    if adjustment != "0"@ {
        "volume="@ + adjustment + "dB,"@ + base
    } else {
        base
    }
}

/// The chain either measurement yields for a template.
pub open spec fn chain_of(base: Seq<char>, m: MeasurementView) -> Seq<char> {
    match m {
        MeasurementView::Loudnorm(f) => two_pass_chain(base, f),
        MeasurementView::Volume(f) => single_pass_chain(base, adjustment_of(f.max_volume)),
    }
}

/// Builds the two-pass chain for a measured-loudness run.
pub fn synthesize_two_pass(settings: &DpcNormSettings, m: &LoudnormMeasurement) -> (r: String)
    ensures
        r@ == two_pass_chain(settings.base_filter_params@, m@),
{
    let mut out = settings.base_filter_params.clone();
    out.append(":measured_I=");
    out.append(m.output_i.as_str());
    out.append(":measured_LRA=");
    out.append(m.output_lra.as_str());
    out.append(":measured_TP=");
    out.append(m.output_tp.as_str());
    out.append(":measured_thresh=");
    out.append(m.output_thresh.as_str());
    out.append(":offset=");
    out.append(m.target_offset.as_str());
    out.append(":linear=true");
    out
}

/// Builds the single-pass chain for a volume-adjusted run.
pub fn synthesize_single_pass(settings: &DpcNormSettings, adjustment: &str) -> (r: String)
    ensures
        r@ == single_pass_chain(settings.base_filter_params@, adjustment@),
{
    if !str_eq(adjustment, "0") {
        let mut out = "volume=".to_owned();
        out.append(adjustment);
        out.append("dB,");
        out.append(settings.base_filter_params.as_str());
        out
    } else {
        settings.base_filter_params.clone()
    }
}

/// Builds the final filter chain for a measurement of either strategy.
/// The result is never empty.
pub fn synthesize(settings: &DpcNormSettings, m: &Measurement) -> (r: String)
    requires
        settings.base_filter_params@.len() > 0,
    ensures
        r@ == chain_of(settings.base_filter_params@, m@),
        r@.len() > 0,
{
    match m {
        Measurement::Loudnorm(lm) => synthesize_two_pass(settings, lm),
        Measurement::Volume(vm) => {
            let adjustment = crate::volume::volume_adjustment_of(vm);
            synthesize_single_pass(settings, adjustment.as_str())
        },
    }
}

/// Derives the final filter chain from the diagnostic stream of the
/// measurement pass, under the strategy the settings select. In structured
/// mode a stream without a parsable payload is fatal; in line-pattern mode
/// an absent statistic degrades to the neutral adjustment and the call
/// cannot fail.
pub fn filter_chain_from_diagnostic(settings: &DpcNormSettings, stream: &str) -> (r: Result<
    String,
    crate::errors::NormError,
>)
    requires
        settings.base_filter_params@.len() > 0,
    ensures
        uses_two_pass(settings.base_filter_params@) ==> {
            &&& (r is Ok) == (crate::loudnorm::structured_fields(stream@) is Some)
            &&& (r matches Ok(chain) ==> chain@ == two_pass_chain(
                settings.base_filter_params@,
                crate::loudnorm::structured_fields(stream@)->Some_0,
            ))
            &&& (r is Err ==> r == Err::<String, crate::errors::NormError>(
                crate::errors::NormError::MalformedAnalysisOutput,
            ))
        },
        !uses_two_pass(settings.base_filter_params@) ==> (r matches Ok(chain) && chain@
            == single_pass_chain(
            settings.base_filter_params@,
            crate::volume::stream_adjustment(stream@),
        )),
        r matches Ok(chain) ==> chain@.len() > 0,
{
    if settings_use_two_pass(settings) {
        match crate::loudnorm::parse_structured_diagnostic(stream) {
            Ok(m) => Ok(synthesize_two_pass(settings, &m)),
            Err(e) => Err(e),
        }
    } else {
        let m = crate::volume::parse_volume_diagnostic(stream);
        let adjustment = crate::volume::volume_adjustment_of(&m);
        Ok(synthesize_single_pass(settings, adjustment.as_str()))
    }
}

/// Synthesis is a function of the settings and measurement values alone:
/// equal inputs always yield the identical filter chain.
pub proof fn lemma_synthesis_deterministic(
    s1: DpcNormSettings,
    s2: DpcNormSettings,
    m1: Measurement,
    m2: Measurement,
)
    requires
        s1@ == s2@,
        m1@ == m2@,
    ensures
        chain_of(s1.base_filter_params@, m1@) == chain_of(s2.base_filter_params@, m2@),
{
}

/// A diagnostic stream with no peak-volume line leaves the template
/// untouched: the absent statistic degrades to the neutral adjustment and
/// the single-pass chain is the template verbatim.
pub proof fn lemma_absent_peak_is_neutral(stream: Seq<char>, base: Seq<char>)
    requires
        crate::volume::line_match(stream, "max_volume"@) is None,
    ensures
        crate::volume::stream_adjustment(stream) == "0"@,
        single_pass_chain(base, crate::volume::stream_adjustment(stream)) == base,
{
}

} // verus!
