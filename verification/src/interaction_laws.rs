//! Which questions may be asked: what an accepted question satisfies, that nothing
//! more is asked of one, and that a refusal names what is wrong.
use vstd::prelude::*;

use crate::interaction;
use crate::interaction::{InteractionError, OptionField, OptionView};
use crate::text;

verus! {

/// Whether a text is one line that a reader can be shown: bounded, without control
/// characters, and with nothing blank at either end.
pub open spec fn showable(value: Seq<char>, least: int, most: int) -> bool {
    &&& least <= value.len() <= most
    &&& forall|i: int| 0 <= i < value.len() ==> !text::is_control(#[trigger] value[i])
    &&& text::trim(value) == value
}

/// Whether an option can be offered beside those before it.
pub open spec fn offerable(options: Seq<OptionView>, i: int) -> bool {
    &&& showable(options[i].label, 1, 80)
    &&& showable(options[i].description, 0, 256)
    &&& forall|k: int|
        0 <= k < i ==> !interaction::same_label((#[trigger] options[k]).label, options[i].label)
}

/// A question is accepted exactly when it is one bounded line, stands alone or with two
/// to five options, and each option has a label of its own and a bounded line to
/// describe it.
pub proof fn law_sound_questions_are_accepted(question: Seq<char>, options: Seq<OptionView>)
    ensures
        interaction::question_fault(question, options) is None <==> {
            &&& showable(question, 1, 1024)
            &&& options.len() == 0 || 2 <= options.len() <= 5
            &&& forall|i: int| 0 <= i < options.len() ==> #[trigger] offerable(options, i)
        },
{
    lemma_lines(question, 1, 1024);
    lemma_first_fault(options, 0);
}

/// A refusal of an option names the first option that cannot be offered, and the field
/// that is wrong with it.
pub proof fn law_refusals_name_the_first_fault(question: Seq<char>, options: Seq<OptionView>)
    requires
        options.len() <= usize::MAX,
    ensures
        interaction::question_fault(question, options) matches Some(
            InteractionError::InvalidOption { index, field },
        ) ==> {
            &&& index < options.len()
            &&& forall|i: int| 0 <= i < index ==> #[trigger] offerable(options, i)
            &&& field == OptionField::Label ==> !showable(options[index as int].label, 1, 80)
            &&& field == OptionField::Description ==> !showable(
                options[index as int].description,
                0,
                256,
            ) && showable(options[index as int].label, 1, 80)
        },
        interaction::question_fault(question, options) matches Some(
            InteractionError::DuplicateOption { index },
        ) ==> {
            &&& index < options.len()
            &&& forall|i: int| 0 <= i < index ==> #[trigger] offerable(options, i)
            &&& exists|k: int|
                0 <= k < index && interaction::same_label(
                    (#[trigger] options[k]).label,
                    options[index as int].label,
                )
        },
{
    lemma_first_fault(options, 0);
}

/// The two ways to say that a text is one bounded line agree.
proof fn lemma_lines(value: Seq<char>, least: int, most: int)
    ensures
        interaction::single_line(value, least, most) == showable(value, least, most),
{
}

/// An option has no fault exactly when it can be offered.
proof fn lemma_option(options: Seq<OptionView>, i: int)
    requires
        0 <= i < options.len(),
    ensures
        interaction::option_fault(options, i) is None <==> offerable(options, i),
{
    lemma_lines(options[i].label, 1, 80);
    lemma_lines(options[i].description, 0, 256);
}

/// The fault that is found from an option on is that of the first one that cannot be
/// offered.
proof fn lemma_first_fault(options: Seq<OptionView>, from: int)
    requires
        0 <= from <= options.len(),
    ensures
        match interaction::options_fault(options, from) {
            None => forall|i: int| from <= i < options.len() ==> #[trigger] offerable(options, i),
            Some(e) => exists|at: int|
                from <= at < options.len() && #[trigger] interaction::option_fault(options, at)
                    == Some(e) && !offerable(options, at) && forall|i: int|
                    from <= i < at ==> #[trigger] offerable(options, i),
        },
    decreases options.len() - from,
{
    if from < options.len() {
        lemma_option(options, from);
        lemma_first_fault(options, from + 1);
        if interaction::option_fault(options, from) is Some {
            assert(interaction::options_fault(options, from) == interaction::option_fault(
                options,
                from,
            ));
        }
    }
}

} // verus!
