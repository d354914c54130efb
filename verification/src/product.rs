//! The name that the product goes by, and texts that carry it.
use vstd::prelude::*;
use crate::text::{chars_of, occurs_at, occurs_here};

verus! {

/// The product's name: its command, its hidden files, its settings.
pub const NAME: &'static str = "acyclic";

/// What stands for the product's name in a template.
pub const MARK: &'static str = "{{name}}";

/// A text with every occurrence of a mark, from the left, replaced.
pub open spec fn replaced(text: Seq<char>, mark: Seq<char>, by: Seq<char>) -> Seq<char>
    decreases text.len(),
{
    if text.len() == 0 || mark.len() == 0 {
        text
    } else if occurs_at(text, mark, 0) {
        by + replaced(text.skip(mark.len() as int), mark, by)
    } else {
        seq![text[0]] + replaced(text.skip(1), mark, by)
    }
}

/// A text with every occurrence of a mark, from the left, replaced.
pub fn replace(template: &str, marked: &str, by: &str) -> (r: String)
    ensures
        r@ == replaced(template@, marked@, by@),
{
    let text = chars_of(template);
    let mark = chars_of(marked);
    if mark.len() == 0 {
        return template.to_owned();
    }
    let mut out = String::new();
    let mut i: usize = 0;
    proof {
        assert(template@.skip(0) =~= template@);
    }
    while i < text.len()
        invariant
            text@ == template@,
            mark@ == marked@,
            mark@.len() > 0,
            i <= text@.len(),
            out@ + replaced(text@.skip(i as int), marked@, by@) == replaced(
                template@,
                marked@,
                by@,
            ),
        decreases text.len() - i,
    {
        let ghost rest = text@.skip(i as int);
        let ghost before = out@;
        let here = occurs_here(text.as_slice(), mark.as_slice(), i);
        proof {
            assert(occurs_at(text@, mark@, i as int) == occurs_at(rest, mark@, 0)) by {
                if occurs_at(rest, mark@, 0) {
                    assert(text@.subrange(i as int, i + mark@.len()) =~= rest.subrange(
                        0,
                        mark@.len() as int,
                    ));
                }
                if occurs_at(text@, mark@, i as int) {
                    assert(text@.subrange(i as int, i + mark@.len()) =~= rest.subrange(
                        0,
                        mark@.len() as int,
                    ));
                }
            }
        }
        if here {
            out.append(by);
            i += mark.len();
            proof {
                assert(rest.skip(mark@.len() as int) =~= text@.skip(i as int));
                assert(before + (by@ + replaced(text@.skip(i as int), marked@, by@)) =~= out@
                    + replaced(text@.skip(i as int), marked@, by@));
            }
        } else {
            out.push(text[i]);
            i += 1;
            proof {
                assert(rest.skip(1) =~= text@.skip(i as int));
                assert(before + (seq![rest[0]] + replaced(text@.skip(i as int), marked@, by@))
                    =~= out@ + replaced(text@.skip(i as int), marked@, by@));
            }
        }
    }
    assert(text@.skip(i as int) =~= Seq::<char>::empty());
    out
}

/// A template with the product's name in place of its mark.
pub fn render(template: &str) -> (r: String)
    ensures
        r@ == replaced(template@, MARK@, NAME@),
{
    replace(template, MARK, NAME)
}

} // verus!
