//! The short texts the window shows about notes: counts in decimal, the
//! line under a note's card, the group headers of the note list and the
//! save state.
use vstd::prelude::*;
use crate::chars::push_char;
use crate::clock::{digit, digit_char};
use crate::model::{meta_views, NoteMetadata};
use crate::search::category_label;

verus! {

/// The decimal digits of a number, without leading zeros.
pub open spec fn decimal(n: nat) -> Seq<char>
    decreases n,
{
    if n < 10 {
        seq![digit_char(n)]
    } else {
        decimal(n / 10) + seq![digit_char(n % 10)]
    }
}

fn push_decimal(s: &mut String, n: usize)
    ensures
        final(s)@ == old(s)@ + decimal(n as nat),
    decreases n,
{
    if n >= 10 {
        push_decimal(s, n / 10);
    }
    push_char(s, digit((n % 10) as u32));
    assert(final(s)@ =~= old(s)@ + decimal(n as nat));
}

/// A number in decimal.
pub fn decimal_text(n: usize) -> (r: String)
    ensures
        r@ == decimal(n as nat),
{
    let mut s = String::new();
    push_decimal(&mut s, n);
    assert(s@ =~= decimal(n as nat));
    s
}

/// `{n} 字`: a count of characters.
pub fn word_count_label(n: usize) -> (r: String)
    ensures
        r@ == decimal(n as nat) + " 字"@,
{
    let mut s = decimal_text(n);
    s.append(" 字");
    s
}

/// `{n} 行`: a count of lines.
pub fn line_count_label(n: usize) -> (r: String)
    ensures
        r@ == decimal(n as nat) + " 行"@,
{
    let mut s = decimal_text(n);
    s.append(" 行");
    s
}

/// The count above the note list: `{hits} / {total} 篇笔记` while a
/// search finds notes, else `{shown} 篇笔记`.
pub fn note_count_label(search_hits: usize, total: usize, shown: usize) -> (r: String)
    ensures
        r@ == if search_hits > 0 {
            decimal(search_hits as nat) + " / "@ + decimal(total as nat) + " 篇笔记"@
        } else {
            decimal(shown as nat) + " 篇笔记"@
        },
{
    if search_hits > 0 {
        let mut s = decimal_text(search_hits);
        s.append(" / ");
        let t = decimal_text(total);
        s.append(t.as_str());
        s.append(" 篇笔记");
        s
    } else {
        let mut s = decimal_text(shown);
        s.append(" 篇笔记");
        s
    }
}

/// The line under a note's card: `{time} · {count} 字`.
pub fn card_meta_label(time: &str, word_count: usize) -> (r: String)
    ensures
        r@ == time@ + " · "@ + decimal(word_count as nat) + " 字"@,
{
    let mut s = String::from_str(time);
    s.append(" · ");
    let c = word_count_label(word_count);
    s.append(c.as_str());
    assert(s@ =~= time@ + " · "@ + decimal(word_count as nat) + " 字"@);
    s
}

/// `未保存` while the note has changes, else `已保存`.
pub fn save_state_label(dirty: bool) -> (r: &'static str)
    ensures
        r@ == if dirty {
            "未保存"@
        } else {
            "已保存"@
        },
{
    if dirty {
        "未保存"
    } else {
        "已保存"
    }
}

/// `Auto` with auto-save on, else `Manual`.
pub fn save_mode_label(auto_save: bool) -> (r: &'static str)
    ensures
        r@ == if auto_save {
            "Auto"@
        } else {
            "Manual"@
        },
{
    if auto_save {
        "Auto"
    } else {
        "Manual"
    }
}

/// Where the note list starts a group under a category header: at the
/// first note, and wherever the category label differs from the note
/// before.
pub fn group_starts(notes: &Vec<NoteMetadata>) -> (r: Vec<bool>)
    ensures
        r@.len() == notes@.len(),
        forall|i: int|
            0 <= i < notes@.len() ==> #[trigger] r@[i] == (i == 0 || category_label(
                meta_views(notes@)[i - 1].category,
            ) != category_label(meta_views(notes@)[i].category)),
{
    let mut r: Vec<bool> = Vec::new();
    let mut i: usize = 0;
    while i < notes.len()
        invariant
            i <= notes@.len(),
            r@.len() == i,
            forall|k: int|
                0 <= k < i ==> #[trigger] r@[k] == (k == 0 || category_label(
                    meta_views(notes@)[k - 1].category,
                ) != category_label(meta_views(notes@)[k].category)),
        decreases notes@.len() - i,
    {
        if i == 0 {
            r.push(true);
        } else {
            let a = crate::search::category_label_text(notes[i - 1].category.as_str());
            let b = crate::search::category_label_text(notes[i].category.as_str());
            let same = crate::order::same_text(a.as_str(), b.as_str());
            r.push(!same);
        }
        i = i + 1;
    }
    r
}

} // verus!
