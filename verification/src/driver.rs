//! The dispatch driver: resolves requested target names against a registry,
//! applies the theme through each resolved backend, and records one outcome
//! per requested name — never skipping a name and never letting one
//! target's failure prevent the attempt on the next.

use vstd::prelude::*;
use vstd::string::StrSliceExecFns;

use crate::registry::{norm_name, normalize_name, Registry};
use crate::targets::target::{Gtk3Target, MasqTarget, SwayTarget, TargetBackend};
use crate::theme::Theme;
use crate::themefile::{parse_theme, spec_generate, spec_parse, ParseError};
use crate::text::spec_parse_u32;

verus! {

/// The recorded result of one requested target name.
#[derive(Debug, Clone, PartialEq, Eq)]
pub enum Outcome {
    /// The name resolved and the backend applied the theme.
    Applied { target: String },
    /// No backend is registered under the name.
    Unknown { requested: String },
    /// The name resolved but the backend reported a failure.
    Failed { target: String, message: String },
}

/// Spec-level view of an `Outcome`, over character sequences.
pub enum OutcomeView {
    Applied { target: Seq<char> },
    Unknown { requested: Seq<char> },
    Failed { target: Seq<char>, message: Seq<char> },
}

impl View for Outcome {
    type V = OutcomeView;

    open spec fn view(&self) -> OutcomeView {
        match self {
            Outcome::Applied { target } => OutcomeView::Applied { target: target@ },
            Outcome::Unknown { requested } => OutcomeView::Unknown { requested: requested@ },
            Outcome::Failed { target, message } => OutcomeView::Failed {
                target: target@,
                message: message@,
            },
        }
    }
}

/// An outcome that makes the whole command fail: an unknown target or a
/// failed apply.
pub open spec fn is_failure(o: OutcomeView) -> bool {
    !(o is Applied)
}

/// The outcome dispatch records for one requested name: unknown when the
/// normalized name has no registered backend, otherwise whatever the
/// resolved backend reports for this theme, under the backend's canonical
/// name.
pub open spec fn spec_outcome<B: MasqTarget>(
    registry: Registry<B>,
    theme: Theme,
    name: Seq<char>,
) -> OutcomeView {
    match registry.spec_lookup(norm_name(name)) {
        None => OutcomeView::Unknown { requested: name },
        Some(b) => match b.spec_apply(theme) {
            Ok(u) => OutcomeView::Applied { target: b.spec_name() },
            Err(m) => OutcomeView::Failed { target: b.spec_name(), message: m },
        },
    }
}

/// Resolution depends on a name only through its normalization: names that
/// normalize alike resolve to the same backend, and when they resolve, to
/// the same outcome.
pub proof fn lemma_name_normalization<B: MasqTarget>(
    registry: Registry<B>,
    theme: Theme,
    a: Seq<char>,
    b: Seq<char>,
)
    requires
        norm_name(a) == norm_name(b),
    ensures
        registry.spec_lookup(norm_name(a)) == registry.spec_lookup(norm_name(b)),
        registry.spec_lookup(norm_name(a)) is Some ==> spec_outcome(registry, theme, a)
            == spec_outcome(registry, theme, b),
{
}

/// Applies `theme` to every requested target, in the requested order:
/// normalize the name, look it up, apply through the backend, and record the
/// outcome. Exactly one outcome per requested name, each determined by that
/// name alone — an unknown name or a failing backend never prevents the
/// attempt on any later name.
pub fn dispatch<B: MasqTarget>(registry: &Registry<B>, theme: &Theme, targets: &Vec<String>) -> (r:
    Vec<Outcome>)
    ensures
        r@.len() == targets@.len(),
        forall|i: int|
            0 <= i < targets@.len() ==> #[trigger] r@[i]@ == spec_outcome(
                *registry,
                *theme,
                targets@[i]@,
            ),
{
    let mut outcomes: Vec<Outcome> = Vec::new();
    let mut i: usize = 0;
    while i < targets.len()
        invariant
            i <= targets@.len(),
            outcomes@.len() == i,
            forall|j: int|
                0 <= j < i ==> #[trigger] outcomes@[j]@ == spec_outcome(
                    *registry,
                    *theme,
                    targets@[j]@,
                ),
        decreases targets@.len() - i,
    {
        let name = &targets[i];
        let key = normalize_name(name.as_str());
        match registry.lookup(key.as_slice()) {
            None => {
                outcomes.push(Outcome::Unknown { requested: name.clone() });
            },
            Some(backend) => {
                let target = backend.get_name();
                match backend.apply(theme) {
                    Ok(u) => {
                        outcomes.push(Outcome::Applied { target: target.to_owned() });
                    },
                    Err(message) => {
                        outcomes.push(Outcome::Failed { target: target.to_owned(), message });
                    },
                }
            },
        }
        i = i + 1;
    }
    outcomes
}

/// True exactly when at least one outcome is a failure — the condition under
/// which the whole command must report a non-zero status.
pub fn any_failed(outcomes: &Vec<Outcome>) -> (r: bool)
    ensures
        r == exists|i: int| 0 <= i < outcomes@.len() && is_failure(#[trigger] outcomes@[i]@),
{
    let mut i: usize = 0;
    while i < outcomes.len()
        invariant
            i <= outcomes@.len(),
            forall|j: int| 0 <= j < i ==> !is_failure(#[trigger] outcomes@[j]@),
        decreases outcomes@.len() - i,
    {
        let failed = match &outcomes[i] {
            Outcome::Applied { .. } => false,
            _ => true,
        };
        if failed {
            assert(is_failure(outcomes@[i as int]@));
            return true;
        }
        i = i + 1;
    }
    false
}

/// The registry the tool starts with: the window-manager backend under
/// `sway` and the GUI-toolkit backend under `gtk3`.
pub fn standard_registry() -> (r: Registry<TargetBackend>)
    ensures
        forall|k: Seq<u8>|
            r.spec_lookup(k) == (if k == norm_name("gtk3"@) {
                Some(TargetBackend::Gtk3(Gtk3Target))
            } else if k == norm_name("sway"@) {
                Some(TargetBackend::Sway(SwayTarget))
            } else {
                None::<TargetBackend>
            }),
{
    let mut registry: Registry<TargetBackend> = Registry::new();
    registry.register("sway", TargetBackend::Sway(SwayTarget));
    registry.register("gtk3", TargetBackend::Gtk3(Gtk3Target));
    registry
}

/// The Apply command once the theme source is in memory: parse it, then
/// dispatch to every requested target. A source that does not parse is
/// rejected before any target is attempted, with zero dispatch attempts.
pub fn apply_command<B: MasqTarget>(
    registry: &Registry<B>,
    source: &[u8],
    targets: &Vec<String>,
) -> (r: Result<Vec<Outcome>, ParseError>)
    ensures
        r is Ok <==> spec_parse(source@) is Ok,
        r is Err ==> spec_parse(source@) == Err::<Theme, ParseError>(r->Err_0),
        r is Ok ==> r->Ok_0@.len() == targets@.len() && forall|i: int|
            0 <= i < targets@.len() ==> #[trigger] r->Ok_0@[i]@ == spec_outcome(
                *registry,
                spec_parse(source@)->Ok_0,
                targets@[i]@,
            ),
{
    let theme = match parse_theme(source) {
        Ok(t) => t,
        Err(e) => {
            return Err(e);
        },
    };
    Ok(dispatch(registry, &theme, targets))
}

/// Why a Generate command was rejected.
#[derive(Clone, Copy, Debug, PartialEq, Eq, Structural)]
pub enum GenerateError {
    /// The command takes exactly six color values.
    WrongColorCount,
    /// A color value is not an integer literal that fits in 32 bits.
    InvalidColor,
}

/// What one command-line color value denotes: a decimal or `0x`-hexadecimal
/// 32-bit integer literal.
pub open spec fn spec_color(s: Seq<char>) -> Option<u32> {
    spec_parse_u32(vstd::utf8::encode_utf8(s))
}

fn parse_color(s: &String) -> (r: Option<u32>)
    ensures
        r == spec_color(s@),
{
    let bytes = s.as_str().as_bytes_vec();
    crate::text::parse_u32(bytes.as_slice())
}

/// The Generate command before the file is written: six color values, in
/// the order accent, accent_deep, foreground, complement, dark, light_dark,
/// become the bytes of the canonical generated theme file.
pub fn generate_command(colors: &Vec<String>) -> (r: Result<Vec<u8>, GenerateError>)
    ensures
        colors@.len() != 6 ==> r == Err::<Vec<u8>, GenerateError>(GenerateError::WrongColorCount),
        colors@.len() == 6 && (exists|i: int|
            0 <= i < 6 && spec_color(#[trigger] colors@[i]@) is None) ==> r == Err::<
            Vec<u8>,
            GenerateError,
        >(GenerateError::InvalidColor),
        colors@.len() == 6 && (forall|i: int|
            0 <= i < 6 ==> spec_color(#[trigger] colors@[i]@) is Some) ==> r is Ok && r->Ok_0@
            == spec_generate(
            Theme {
                accent: spec_color(colors@[0]@)->0,
                accent_deep: spec_color(colors@[1]@)->0,
                foreground: spec_color(colors@[2]@)->0,
                complement: spec_color(colors@[3]@)->0,
                dark: spec_color(colors@[4]@)->0,
                light_dark: spec_color(colors@[5]@)->0,
            },
        ),
{
    if colors.len() != 6 {
        return Err(GenerateError::WrongColorCount);
    }
    let accent = parse_color(&colors[0]);
    let accent_deep = parse_color(&colors[1]);
    let foreground = parse_color(&colors[2]);
    let complement = parse_color(&colors[3]);
    let dark = parse_color(&colors[4]);
    let light_dark = parse_color(&colors[5]);
    match (accent, accent_deep, foreground, complement, dark, light_dark) {
        (Some(a), Some(ad), Some(f), Some(c), Some(d), Some(ld)) => {
            let theme = Theme {
                accent: a,
                accent_deep: ad,
                foreground: f,
                complement: c,
                dark: d,
                light_dark: ld,
            };
            Ok(crate::themefile::generate_theme(&theme))
        },
        _ => Err(GenerateError::InvalidColor),
    }
}

} // verus!
