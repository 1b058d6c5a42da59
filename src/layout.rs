use vstd::prelude::*;
use vstd::string::StringExecFns;
use crate::augment::strings_view;
use crate::sampler::Pick;

verus! {

/// `parts` written one after another with ", " between them.
pub open spec fn joined(parts: Seq<Seq<char>>) -> Seq<char>
    decreases parts.len(),
{
    if parts.len() == 0 {
        Seq::empty()
    } else if parts.len() == 1 {
        parts[0]
    } else {
        joined(parts.drop_last()) + ", "@ + parts.last()
    }
}

/// The translations of a word on one line, separated by ", ".
pub fn join_translations(parts: &Vec<String>) -> (r: String)
    ensures
        r@ == joined(strings_view(parts@)),
{
    let mut r = String::new();
    let mut i: usize = 0;
    while i < parts.len()
        invariant
            i <= parts@.len(),
            r@ == joined(strings_view(parts@.take(i as int))),
        decreases parts@.len() - i,
    {
        let ghost prev = strings_view(parts@.take(i as int));
        let ghost next = strings_view(parts@.take(i + 1));
        assert(next.drop_last() =~= prev);
        if i > 0 {
            r.append(", ");
        }
        r.append(parts[i].as_str());
        i = i + 1;
    }
    assert(parts@.take(parts@.len() as int) =~= parts@);
    r
}

/// Vertical distance between the tops of two selected words.
pub const ROW_PITCH: i32 = 31;

/// Vertical distance from a word's top to its translations' top.
pub const TRANSLATION_DROP: i32 = 19;

/// One line of text for the display, placed by its top-left corner.
#[derive(Debug)]
pub struct TextLine {
    pub text: String,
    pub x: i32,
    pub y: i32,
    /// Drawn in the large bold face (words) rather than the small one (translations).
    pub bold: bool,
}

/// The two lines that show selected pair `i`: the word, then its translations.
pub open spec fn shows_pick(word: TextLine, translations: TextLine, p: Pick, i: int) -> bool {
    &&& word.text@ == p.0@
    &&& word.x == 0
    &&& word.y == ROW_PITCH * i
    &&& word.bold
    &&& translations.text@ == joined(strings_view(p.1@))
    &&& translations.x == 0
    &&& translations.y == ROW_PITCH * i + TRANSLATION_DROP
    &&& !translations.bold
}

/// The lines that show a selection, top to bottom: each word in bold with
/// its translations under it.
pub fn display_lines(selection: &Vec<Pick>) -> (lines: Vec<TextLine>)
    requires
        ROW_PITCH * selection@.len() + TRANSLATION_DROP <= i32::MAX,
    ensures
        lines@.len() == 2 * selection@.len(),
        forall|i: int|
            0 <= i < selection@.len() ==> shows_pick(
                #[trigger] lines@[2 * i],
                lines@[2 * i + 1],
                selection@[i],
                i,
            ),
{
    let mut lines: Vec<TextLine> = Vec::new();
    let mut i: usize = 0;
    while i < selection.len()
        invariant
            i <= selection@.len(),
            ROW_PITCH * selection@.len() + TRANSLATION_DROP <= i32::MAX,
            lines@.len() == 2 * i,
            forall|j: int|
                0 <= j < i ==> shows_pick(#[trigger] lines@[2 * j], lines@[2 * j + 1], selection@[j], j),
        decreases selection@.len() - i,
    {
        assert(ROW_PITCH * i + TRANSLATION_DROP <= i32::MAX) by (nonlinear_arith)
            requires
                ROW_PITCH * selection@.len() + TRANSLATION_DROP <= i32::MAX,
                i < selection@.len(),
        ;
        let top = ROW_PITCH * (i as i32);
        let word = TextLine { text: selection[i].0.clone(), x: 0, y: top, bold: true };
        let translations = TextLine {
            text: join_translations(&selection[i].1),
            x: 0,
            y: top + TRANSLATION_DROP,
            bold: false,
        };
        lines.push(word);
        lines.push(translations);
        i = i + 1;
    }
    lines
}

} // verus!
