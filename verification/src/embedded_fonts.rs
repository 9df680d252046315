//! Which bundled font serves which family and script.
//!
//! No font of the operating system is ever used, so that text looks the same
//! everywhere. The plan here says which fonts are registered, which of them
//! the generic families stand for, and which of them a script falls back to.

use vstd::prelude::*;

verus! {

/// The bundled families.
#[derive(Debug, Clone, Copy, PartialEq, Eq, Structural)]
pub enum FontFamily {
    Mono,
    Sans,
    Serif,
    Arabic,
    Hebrew,
    Devanagari,
    Thai,
    Japanese,
    SimplifiedChinese,
    TraditionalChinese,
    Korean,
}

/// What a document may ask for without naming a font.
#[derive(Debug, Clone, Copy, PartialEq, Eq, Structural)]
pub enum GenericFamily {
    Monospace,
    SansSerif,
    Serif,
}

/// A script that no generic family covers.
#[derive(Debug, Clone, Copy, PartialEq, Eq, Structural)]
pub enum Script {
    Arab,
    Hebr,
    Deva,
    Thai,
    /// Chinese characters.
    Hani,
    /// Korean syllables.
    Hang,
}

/// A language that asks for another font in the same script.
#[derive(Debug, Clone, Copy, PartialEq, Eq, Structural)]
pub enum Locale {
    /// None in particular.
    Any,
    Ja,
    Ko,
    ZhTw,
    ZhHk,
    ZhMo,
}

/// One step of setting up fonts.
#[derive(Debug, Clone, Copy, PartialEq, Eq, Structural)]
pub enum FontStep {
    /// Registers the regular and the bold font of a family.
    Register(FontFamily),
    /// Lets a generic family stand for a family.
    Generic(GenericFamily, FontFamily),
    /// Lets text in a script fall back to a family.
    Fallback(Script, Locale, FontFamily),
}

/// The bundled fonts.
pub struct EmbeddedFonts;

/// The steps of setting up fonts, in their order.
pub open spec fn font_plan() -> Seq<FontStep> {
    seq![
        FontStep::Register(FontFamily::Mono),
        FontStep::Generic(GenericFamily::Monospace, FontFamily::Mono),
        FontStep::Register(FontFamily::Sans),
        FontStep::Generic(GenericFamily::SansSerif, FontFamily::Sans),
        FontStep::Register(FontFamily::Serif),
        FontStep::Generic(GenericFamily::Serif, FontFamily::Serif),
        FontStep::Register(FontFamily::Arabic),
        FontStep::Fallback(Script::Arab, Locale::Any, FontFamily::Arabic),
        FontStep::Register(FontFamily::Hebrew),
        FontStep::Fallback(Script::Hebr, Locale::Any, FontFamily::Hebrew),
        FontStep::Register(FontFamily::Devanagari),
        FontStep::Fallback(Script::Deva, Locale::Any, FontFamily::Devanagari),
        FontStep::Register(FontFamily::Thai),
        FontStep::Fallback(Script::Thai, Locale::Any, FontFamily::Thai),
        FontStep::Register(FontFamily::Japanese),
        FontStep::Register(FontFamily::SimplifiedChinese),
        FontStep::Register(FontFamily::TraditionalChinese),
        FontStep::Register(FontFamily::Korean),
        FontStep::Fallback(Script::Hani, Locale::Any, FontFamily::SimplifiedChinese),
        FontStep::Fallback(Script::Hani, Locale::Ja, FontFamily::Japanese),
        FontStep::Fallback(Script::Hani, Locale::Ko, FontFamily::Korean),
        FontStep::Fallback(Script::Hani, Locale::ZhTw, FontFamily::TraditionalChinese),
        FontStep::Fallback(Script::Hani, Locale::ZhHk, FontFamily::TraditionalChinese),
        FontStep::Fallback(Script::Hani, Locale::ZhMo, FontFamily::TraditionalChinese),
        FontStep::Fallback(Script::Hang, Locale::Any, FontFamily::Korean),
    ]
}

impl EmbeddedFonts {
    /// The steps of setting up fonts, in their order.
    pub fn plan() -> (steps: Vec<FontStep>)
        ensures
            steps@ == font_plan(),
    {
        let steps = vec![
            FontStep::Register(FontFamily::Mono),
            FontStep::Generic(GenericFamily::Monospace, FontFamily::Mono),
            FontStep::Register(FontFamily::Sans),
            FontStep::Generic(GenericFamily::SansSerif, FontFamily::Sans),
            FontStep::Register(FontFamily::Serif),
            FontStep::Generic(GenericFamily::Serif, FontFamily::Serif),
            FontStep::Register(FontFamily::Arabic),
            FontStep::Fallback(Script::Arab, Locale::Any, FontFamily::Arabic),
            FontStep::Register(FontFamily::Hebrew),
            FontStep::Fallback(Script::Hebr, Locale::Any, FontFamily::Hebrew),
            FontStep::Register(FontFamily::Devanagari),
            FontStep::Fallback(Script::Deva, Locale::Any, FontFamily::Devanagari),
            FontStep::Register(FontFamily::Thai),
            FontStep::Fallback(Script::Thai, Locale::Any, FontFamily::Thai),
            FontStep::Register(FontFamily::Japanese),
            FontStep::Register(FontFamily::SimplifiedChinese),
            FontStep::Register(FontFamily::TraditionalChinese),
            FontStep::Register(FontFamily::Korean),
            FontStep::Fallback(Script::Hani, Locale::Any, FontFamily::SimplifiedChinese),
            FontStep::Fallback(Script::Hani, Locale::Ja, FontFamily::Japanese),
            FontStep::Fallback(Script::Hani, Locale::Ko, FontFamily::Korean),
            FontStep::Fallback(Script::Hani, Locale::ZhTw, FontFamily::TraditionalChinese),
            FontStep::Fallback(Script::Hani, Locale::ZhHk, FontFamily::TraditionalChinese),
            FontStep::Fallback(Script::Hani, Locale::ZhMo, FontFamily::TraditionalChinese),
            FontStep::Fallback(Script::Hang, Locale::Any, FontFamily::Korean),
        ];
        proof {
            assert(steps@ =~= font_plan());
        }
        steps
    }
}

/// Whether a family is registered before step `i`.
pub open spec fn registered_before(i: int, family: FontFamily) -> bool {
    exists|k: int|
        0 <= k < i && #[trigger] font_plan()[k] == FontStep::Register(family)
}

/// The family that text in a script falls back to.
pub open spec fn falls_back(script: Script, locale: Locale, family: FontFamily) -> bool {
    font_plan().contains(FontStep::Fallback(script, locale, family))
}

/// No step uses a family before it is registered.
pub proof fn law_fonts_are_registered_before_they_are_used(i: int)
    requires
        0 <= i < font_plan().len(),
    ensures
        font_plan()[i] matches FontStep::Generic(_, family) ==> registered_before(i, family),
        font_plan()[i] matches FontStep::Fallback(_, _, family) ==> registered_before(i, family),
{
    let p = font_plan();
    assert(p[0] == FontStep::Register(FontFamily::Mono));
    assert(p[2] == FontStep::Register(FontFamily::Sans));
    assert(p[4] == FontStep::Register(FontFamily::Serif));
    assert(p[6] == FontStep::Register(FontFamily::Arabic));
    assert(p[8] == FontStep::Register(FontFamily::Hebrew));
    assert(p[10] == FontStep::Register(FontFamily::Devanagari));
    assert(p[12] == FontStep::Register(FontFamily::Thai));
    assert(p[14] == FontStep::Register(FontFamily::Japanese));
    assert(p[15] == FontStep::Register(FontFamily::SimplifiedChinese));
    assert(p[16] == FontStep::Register(FontFamily::TraditionalChinese));
    assert(p[17] == FontStep::Register(FontFamily::Korean));
}

/// Every script has a font, whatever the language.
pub proof fn law_every_script_has_a_font(script: Script)
    ensures
        exists|family: FontFamily| #[trigger] falls_back(script, Locale::Any, family),
{
    let p = font_plan();
    match script {
        Script::Arab => {
            assert(p[7] == FontStep::Fallback(script, Locale::Any, FontFamily::Arabic));
            assert(falls_back(script, Locale::Any, FontFamily::Arabic));
        },
        Script::Hebr => {
            assert(p[9] == FontStep::Fallback(script, Locale::Any, FontFamily::Hebrew));
            assert(falls_back(script, Locale::Any, FontFamily::Hebrew));
        },
        Script::Deva => {
            assert(p[11] == FontStep::Fallback(script, Locale::Any, FontFamily::Devanagari));
            assert(falls_back(script, Locale::Any, FontFamily::Devanagari));
        },
        Script::Thai => {
            assert(p[13] == FontStep::Fallback(script, Locale::Any, FontFamily::Thai));
            assert(falls_back(script, Locale::Any, FontFamily::Thai));
        },
        Script::Hani => {
            assert(p[18] == FontStep::Fallback(
                script,
                Locale::Any,
                FontFamily::SimplifiedChinese,
            ));
            assert(falls_back(script, Locale::Any, FontFamily::SimplifiedChinese));
        },
        Script::Hang => {
            assert(p[24] == FontStep::Fallback(script, Locale::Any, FontFamily::Korean));
            assert(falls_back(script, Locale::Any, FontFamily::Korean));
        },
    }
}

/// The family that text in a script falls back to where a locale is asked for.
/// Chinese characters look different in Japan, in Korea, and where traditional
/// characters are written; no other script depends on the locale.
pub open spec fn family_for(script: Script, locale: Locale) -> Option<FontFamily> {
    match (script, locale) {
        (Script::Arab, Locale::Any) => Some(FontFamily::Arabic),
        (Script::Hebr, Locale::Any) => Some(FontFamily::Hebrew),
        (Script::Deva, Locale::Any) => Some(FontFamily::Devanagari),
        (Script::Thai, Locale::Any) => Some(FontFamily::Thai),
        (Script::Hang, Locale::Any) => Some(FontFamily::Korean),
        (Script::Hani, Locale::Any) => Some(FontFamily::SimplifiedChinese),
        (Script::Hani, Locale::Ja) => Some(FontFamily::Japanese),
        (Script::Hani, Locale::Ko) => Some(FontFamily::Korean),
        (Script::Hani, Locale::ZhTw) | (Script::Hani, Locale::ZhHk) | (
            Script::Hani,
            Locale::ZhMo,
        ) => Some(FontFamily::TraditionalChinese),
        _ => None,
    }
}

/// Every script falls back to its own family, and Chinese characters to the one
/// that the locale writes.
pub proof fn law_scripts_fall_back_to_their_own_family(
    script: Script,
    locale: Locale,
    family: FontFamily,
)
    ensures
        falls_back(script, locale, family) <==> family_for(script, locale) == Some(family),
{
    let plan = font_plan();
    let step = FontStep::Fallback(script, locale, family);
    assert(plan[7] == FontStep::Fallback(Script::Arab, Locale::Any, FontFamily::Arabic));
    assert(plan[9] == FontStep::Fallback(Script::Hebr, Locale::Any, FontFamily::Hebrew));
    assert(plan[11] == FontStep::Fallback(Script::Deva, Locale::Any, FontFamily::Devanagari));
    assert(plan[13] == FontStep::Fallback(Script::Thai, Locale::Any, FontFamily::Thai));
    assert(plan[18] == FontStep::Fallback(
        Script::Hani,
        Locale::Any,
        FontFamily::SimplifiedChinese,
    ));
    assert(plan[19] == FontStep::Fallback(Script::Hani, Locale::Ja, FontFamily::Japanese));
    assert(plan[20] == FontStep::Fallback(Script::Hani, Locale::Ko, FontFamily::Korean));
    assert(plan[21] == FontStep::Fallback(
        Script::Hani,
        Locale::ZhTw,
        FontFamily::TraditionalChinese,
    ));
    assert(plan[22] == FontStep::Fallback(
        Script::Hani,
        Locale::ZhHk,
        FontFamily::TraditionalChinese,
    ));
    assert(plan[23] == FontStep::Fallback(
        Script::Hani,
        Locale::ZhMo,
        FontFamily::TraditionalChinese,
    ));
    assert(plan[24] == FontStep::Fallback(Script::Hang, Locale::Any, FontFamily::Korean));
    assert(plan.len() == 25);
    if plan.contains(step) {
        let k = choose|k: int| 0 <= k < plan.len() && plan[k] == step;
        assert(k == 7 || k == 9 || k == 11 || k == 13 || 18 <= k <= 24) by {
            assert(plan[k] is Fallback);
        }
    }
}

/// Each generic family stands for the family of its kind, and for no other.
pub proof fn law_generic_families_stand_for_their_kind(g: GenericFamily, family: FontFamily)
    ensures
        font_plan().contains(FontStep::Generic(g, family)) <==> family == (match g {
            GenericFamily::Monospace => FontFamily::Mono,
            GenericFamily::SansSerif => FontFamily::Sans,
            GenericFamily::Serif => FontFamily::Serif,
        }),
{
    let plan = font_plan();
    assert(plan[1] == FontStep::Generic(GenericFamily::Monospace, FontFamily::Mono));
    assert(plan[3] == FontStep::Generic(GenericFamily::SansSerif, FontFamily::Sans));
    assert(plan[5] == FontStep::Generic(GenericFamily::Serif, FontFamily::Serif));
    let step = FontStep::Generic(g, family);
    if plan.contains(step) {
        let k = choose|k: int| 0 <= k < plan.len() && plan[k] == step;
        assert(k == 1 || k == 3 || k == 5) by {
            assert(plan[k] is Generic);
        }
    }
}

} // verus!
