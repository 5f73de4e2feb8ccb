//! The lines that a command prints.

use vstd::prelude::*;
use vstd::string::StringExecFns;
use crate::path::{lemma_views_push, views};

verus! {

/// The character for a digit below ten.
pub open spec fn digit(d: nat) -> char {
    if d == 0 {
        '0'
    } else if d == 1 {
        '1'
    } else if d == 2 {
        '2'
    } else if d == 3 {
        '3'
    } else if d == 4 {
        '4'
    } else if d == 5 {
        '5'
    } else if d == 6 {
        '6'
    } else if d == 7 {
        '7'
    } else if d == 8 {
        '8'
    } else {
        '9'
    }
}

/// A number in decimal digits, without leading zeros.
pub open spec fn decimal(n: nat) -> Seq<char>
    decreases n,
{
    if n < 10 {
        seq![digit(n)]
    } else {
        decimal(n / 10).push(digit(n % 10))
    }
}

/// A text moved to the right end of a field of the given width by blanks
/// before it. A text that is wider than the field stays as it is.
pub open spec fn right_aligned(text: Seq<char>, width: nat) -> Seq<char> {
    if text.len() >= width {
        text
    } else {
        Seq::new((width - text.len()) as nat, |i: int| ' ') + text
    }
}

/// The line for the match at a position of a listing: the position, counted
/// from 1, at the right of a field of three characters, a colon, a blank and
/// the path.
pub open spec fn list_line(position: nat, path: Seq<char>) -> Seq<char> {
    right_aligned(decimal(position), 3) + ": "@ + path
}

/// The line that says that a scan found nothing.
pub open spec fn no_matches_line(root: Seq<char>) -> Seq<char> {
    "No node_modules found under "@ + root
}

/// What the listing of a scan prints: one line for each match, in order, or
/// the line that says that there is none.
pub open spec fn list_report(root: Seq<char>, items: Seq<Seq<char>>) -> Seq<Seq<char>> {
    if items.len() == 0 {
        seq![no_matches_line(root)]
    } else {
        Seq::new(items.len(), |i: int| list_line((i + 1) as nat, items[i]))
    }
}

/// The line that says how many paths are selected.
pub open spec fn selected_count_line(count: nat) -> Seq<char> {
    "Selected "@ + decimal(count) + " directories"@
}

/// The line that shows one selected path.
pub open spec fn selected_path_line(path: Seq<char>) -> Seq<char> {
    " "@ + path
}

/// What is printed of a selection before anything is done to it: how many
/// paths it holds, then each of them.
pub open spec fn selection_report(selected: Seq<Seq<char>>) -> Seq<Seq<char>> {
    seq![selected_count_line(selected.len())] + Seq::new(
        selected.len(),
        |i: int| selected_path_line(selected[i]),
    )
}

/// The text of a digit.
fn digit_text(d: usize) -> (text: &'static str)
    requires
        d < 10,
    ensures
        text@ == seq![digit(d as nat)],
{
    proof {
        reveal_strlit("0");
        reveal_strlit("1");
        reveal_strlit("2");
        reveal_strlit("3");
        reveal_strlit("4");
        reveal_strlit("5");
        reveal_strlit("6");
        reveal_strlit("7");
        reveal_strlit("8");
        reveal_strlit("9");
    }
    let text = if d == 0 {
        "0"
    } else if d == 1 {
        "1"
    } else if d == 2 {
        "2"
    } else if d == 3 {
        "3"
    } else if d == 4 {
        "4"
    } else if d == 5 {
        "5"
    } else if d == 6 {
        "6"
    } else if d == 7 {
        "7"
    } else if d == 8 {
        "8"
    } else {
        "9"
    };
    assert(text@ =~= seq![digit(d as nat)]);
    text
}

/// Writes a number in decimal digits at the end of a text.
pub fn push_decimal(out: &mut String, n: usize)
    ensures
        final(out)@ == old(out)@ + decimal(n as nat),
    decreases n,
{
    if n >= 10 {
        push_decimal(out, n / 10);
    }
    out.append(digit_text(n % 10));
    assert(out@ =~= old(out)@ + decimal(n as nat));
}

/// Writes a number at the right of a field of the given width at the end of
/// a text.
pub fn push_right_aligned(out: &mut String, n: usize, width: usize)
    ensures
        final(out)@ == old(out)@ + right_aligned(decimal(n as nat), width as nat),
{
    let mut digits = String::new();
    push_decimal(&mut digits, n);
    assert(digits@ =~= decimal(n as nat));
    let len = digits.as_str().unicode_len();
    let mut blanks = String::new();
    let mut filled: usize = len;
    while filled < width
        invariant
            len <= filled,
            len < width ==> filled <= width,
            len >= width ==> filled == len,
            blanks@ == Seq::new((filled - len) as nat, |i: int| ' '),
        decreases width - filled,
    {
        proof {
            reveal_strlit(" ");
        }
        blanks.append(" ");
        filled += 1;
        assert(blanks@ =~= Seq::new((filled - len) as nat, |i: int| ' '));
    }
    assert(blanks@ + digits@ =~= right_aligned(decimal(n as nat), width as nat));
    out.append(blanks.as_str());
    out.append(digits.as_str());
    assert(out@ =~= old(out)@ + (blanks@ + digits@));
}

/// The line of a listing for the match at `position`, counted from 1.
pub fn format_list_line(position: usize, path: &str) -> (line: String)
    ensures
        line@ == list_line(position as nat, path@),
{
    let mut line = String::new();
    push_right_aligned(&mut line, position, 3);
    line.append(": ");
    line.append(path);
    assert(line@ =~= list_line(position as nat, path@));
    line
}

/// The line that says that a scan from `root` found nothing.
pub fn format_no_matches(root: &str) -> (line: String)
    ensures
        line@ == no_matches_line(root@),
{
    let mut line = String::from_str("No node_modules found under ");
    line.append(root);
    line
}

/// The lines that list the matches of a scan from `root`.
pub fn format_list_report(root: &str, items: &Vec<String>) -> (lines: Vec<String>)
    ensures
        views(lines@) == list_report(root@, views(items@)),
{
    let mut lines: Vec<String> = Vec::new();
    if items.len() == 0 {
        let line = format_no_matches(root);
        proof {
            lemma_views_push(lines@, line);
        }
        lines.push(line);
        assert(views(lines@) =~= list_report(root@, views(items@)));
        return lines;
    }
    let mut i: usize = 0;
    while i < items.len()
        invariant
            i <= items.len(),
            items.len() > 0,
            views(lines@) == list_report(root@, views(items@)).take(i as int),
        decreases items.len() - i,
    {
        let line = format_list_line(i + 1, items[i].as_str());
        proof {
            lemma_views_push(lines@, line);
        }
        lines.push(line);
        assert(views(lines@) =~= list_report(root@, views(items@)).take(i + 1));
        i += 1;
    }
    assert(list_report(root@, views(items@)).take(items.len() as int) == list_report(
        root@,
        views(items@),
    ));
    lines
}

/// The lines that show a selection before anything is done to it.
pub fn format_selection_report(selected: &Vec<String>) -> (lines: Vec<String>)
    ensures
        views(lines@) == selection_report(views(selected@)),
{
    let mut head = String::from_str("Selected ");
    push_decimal(&mut head, selected.len());
    head.append(" directories");
    assert(head@ =~= selected_count_line(selected.len() as nat));
    let mut lines: Vec<String> = Vec::new();
    proof {
        lemma_views_push(lines@, head);
    }
    lines.push(head);
    assert(views(lines@) =~= selection_report(views(selected@)).take(1));
    let mut i: usize = 0;
    while i < selected.len()
        invariant
            i <= selected.len(),
            views(lines@) == selection_report(views(selected@)).take(i + 1),
        decreases selected.len() - i,
    {
        let mut line = String::from_str(" ");
        line.append(selected[i].as_str());
        proof {
            lemma_views_push(lines@, line);
        }
        lines.push(line);
        assert(views(lines@) =~= selection_report(views(selected@)).take(i + 2));
        i += 1;
    }
    assert(selection_report(views(selected@)).take(selected.len() + 1) == selection_report(
        views(selected@),
    ));
    lines
}

} // verus!
