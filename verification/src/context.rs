//! What surrounds the expression that is being folded.
use vstd::prelude::*;

use crate::number::Number;
use crate::number_value::NumberValue;
use crate::text;

verus! {

/// What the expression that is being folded is a part of.
#[derive(Clone, Copy, Debug, PartialEq, Eq, Structural)]
pub enum Ancestor {
    CallExpression,
    TaggedTemplateExpression,
    Other,
}

impl Ancestor {
    pub open spec fn call_or_tag(self) -> bool {
        self is CallExpression || self is TaggedTemplateExpression
    }

    pub fn is_call_expression(self) -> (r: bool)
        ensures
            r == self is CallExpression,
    {
        match self {
            Ancestor::CallExpression => true,
            _ => false,
        }
    }

    pub fn is_tagged_template_expression(self) -> (r: bool)
        ensures
            r == self is TaggedTemplateExpression,
    {
        match self {
            Ancestor::TaggedTemplateExpression => true,
            _ => false,
        }
    }
}

/// The number that a string is converted to.
#[derive(Debug, PartialEq)]
pub struct StringNumber {
    pub text: String,
    pub value: NumberValue,
}

/// The text that a number is converted to.
#[derive(Debug, PartialEq)]
pub struct NumberString {
    pub value: Number,
    pub text: String,
}

/// The surroundings of an expression: its parent, and the conversions between decimal texts and
/// doubles that the owner of the tree has made. A conversion that is not listed is unknown here.
#[derive(Debug, PartialEq)]
pub struct TraverseCtx {
    pub parent: Ancestor,
    pub string_numbers: Vec<StringNumber>,
    pub number_strings: Vec<NumberString>,
}

/// The number that the first entry for a text gives.
pub open spec fn find_number(entries: Seq<StringNumber>, text: Seq<char>) -> Option<NumberValue>
    decreases entries.len(),
{
    if entries.len() == 0 {
        None
    } else if entries[0].text@ == text {
        Some(entries[0].value)
    } else {
        find_number(entries.drop_first(), text)
    }
}

/// The text that the first entry for a number gives.
pub open spec fn find_text(entries: Seq<NumberString>, value: Number) -> Option<Seq<char>>
    decreases entries.len(),
{
    if entries.len() == 0 {
        None
    } else if entries[0].value == value {
        Some(entries[0].text@)
    } else {
        find_text(entries.drop_first(), value)
    }
}

impl TraverseCtx {
    pub open spec fn number_of(&self, text: Seq<char>) -> Option<NumberValue> {
        find_number(self.string_numbers@, text)
    }

    pub open spec fn text_of(&self, value: Number) -> Option<Seq<char>> {
        find_text(self.number_strings@, value)
    }

    /// The number that a string is converted to, where it is listed.
    pub fn string_to_number(&self, text: &str) -> (r: Option<NumberValue>)
        ensures
            r == self.number_of(text@),
    {
        let ghost entries = self.string_numbers@;
        let mut i: usize = 0;
        proof {
            assert(entries.skip(0) =~= entries);
        }
        while i < self.string_numbers.len()
            invariant
                entries == self.string_numbers@,
                i <= entries.len(),
                find_number(entries, text@) == find_number(entries.skip(i as int), text@),
            decreases entries.len() - i,
        {
            if text::is_text(self.string_numbers[i].text.as_str(), text) {
                return Some(self.string_numbers[i].value);
            }
            proof {
                assert(entries.skip(i as int).drop_first() =~= entries.skip(i + 1));
            }
            i = i + 1;
        }
        None
    }

    /// The text that a number is converted to, where it is listed.
    pub fn number_to_string(&self, value: Number) -> (r: Option<String>)
        ensures
            r is Some <==> self.text_of(value) is Some,
            r is Some ==> r->0@ == self.text_of(value)->0,
    {
        let ghost entries = self.number_strings@;
        let mut i: usize = 0;
        proof {
            assert(entries.skip(0) =~= entries);
        }
        while i < self.number_strings.len()
            invariant
                entries == self.number_strings@,
                i <= entries.len(),
                find_text(entries, value) == find_text(entries.skip(i as int), value),
            decreases entries.len() - i,
        {
            if self.number_strings[i].value == value {
                return Some(self.number_strings[i].text.clone());
            }
            proof {
                assert(entries.skip(i as int).drop_first() =~= entries.skip(i + 1));
            }
            i = i + 1;
        }
        None
    }
}

/// Whether an entry of a list is the first for its text.
pub open spec fn first_for(entries: Seq<StringNumber>, text: Seq<char>, i: int) -> bool {
    &&& 0 <= i < entries.len()
    &&& entries[i].text@ == text
    &&& forall|j: int| 0 <= j < i ==> (#[trigger] entries[j]).text@ != text
}

/// The number of a text is that of the first entry for it; there is none just where no entry is.
pub proof fn law_number_is_listed(ctx: &TraverseCtx, text: Seq<char>)
    ensures
        match ctx.number_of(text) {
            Some(value) => exists|i: int| #[trigger]
                first_for(ctx.string_numbers@, text, i) && ctx.string_numbers@[i].value == value,
            None => forall|i: int|
                0 <= i < ctx.string_numbers@.len() ==> (#[trigger] ctx.string_numbers@[i]).text@
                    != text,
        },
{
    lemma_first_number(ctx.string_numbers@, text);
}

proof fn lemma_first_number(entries: Seq<StringNumber>, text: Seq<char>)
    ensures
        match find_number(entries, text) {
            Some(value) => exists|i: int| #[trigger] first_for(entries, text, i) && entries[i].value
                == value,
            None => forall|i: int| 0 <= i < entries.len() ==> (#[trigger] entries[i]).text@ != text,
        },
    decreases entries.len(),
{
    if entries.len() > 0 && entries[0].text@ != text {
        let rest = entries.drop_first();
        lemma_first_number(rest, text);
        match find_number(rest, text) {
            Some(value) => {
                let i = choose|i: int| #[trigger] first_for(rest, text, i) && rest[i].value == value;
                assert forall|j: int| 0 <= j < i + 1 implies (#[trigger] entries[j]).text@
                    != text by {
                    if j > 0 {
                        assert(rest[j - 1].text@ != text);
                    }
                }
                assert(first_for(entries, text, i + 1));
            },
            None => {
                assert forall|i: int| 0 <= i < entries.len() implies (#[trigger] entries[i]).text@
                    != text by {
                    if i > 0 {
                        assert(rest[i - 1].text@ != text);
                    }
                }
            },
        }
    } else if entries.len() > 0 {
        assert(first_for(entries, text, 0));
    }
}

/// Whether an entry of a list is the first for its number.
pub open spec fn first_of(entries: Seq<NumberString>, value: Number, i: int) -> bool {
    &&& 0 <= i < entries.len()
    &&& entries[i].value == value
    &&& forall|j: int| 0 <= j < i ==> (#[trigger] entries[j]).value != value
}

/// The text of a number is that of the first entry for it; there is none just where no entry is.
pub proof fn law_text_is_listed(ctx: &TraverseCtx, value: Number)
    ensures
        match ctx.text_of(value) {
            Some(text) => exists|i: int| #[trigger]
                first_of(ctx.number_strings@, value, i) && ctx.number_strings@[i].text@ == text,
            None => forall|i: int|
                0 <= i < ctx.number_strings@.len() ==> (#[trigger] ctx.number_strings@[i]).value
                    != value,
        },
{
    lemma_first_text(ctx.number_strings@, value);
}

proof fn lemma_first_text(entries: Seq<NumberString>, value: Number)
    ensures
        match find_text(entries, value) {
            Some(text) => exists|i: int| #[trigger] first_of(entries, value, i) && entries[i].text@
                == text,
            None => forall|i: int| 0 <= i < entries.len() ==> (#[trigger] entries[i]).value != value,
        },
    decreases entries.len(),
{
    if entries.len() > 0 && entries[0].value != value {
        let rest = entries.drop_first();
        lemma_first_text(rest, value);
        match find_text(rest, value) {
            Some(text) => {
                let i = choose|i: int| #[trigger] first_of(rest, value, i) && rest[i].text@ == text;
                assert forall|j: int| 0 <= j < i + 1 implies (#[trigger] entries[j]).value
                    != value by {
                    if j > 0 {
                        assert(rest[j - 1].value != value);
                    }
                }
                assert(first_of(entries, value, i + 1));
            },
            None => {
                assert forall|i: int| 0 <= i < entries.len() implies (#[trigger] entries[i]).value
                    != value by {
                    if i > 0 {
                        assert(rest[i - 1].value != value);
                    }
                }
            },
        }
    } else if entries.len() > 0 {
        assert(first_of(entries, value, 0));
    }
}

} // verus!
