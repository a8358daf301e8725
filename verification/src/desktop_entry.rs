use vstd::prelude::*;
use crate::diff_patch::{chars_start_with, has_prefix};
use crate::diff_target::{ascii_lower, lower_chars};
use crate::text::{find_chars, find_from, flatten, push_char, push_str, str_to_chars, text_lines, text_lines_of};

verus! {

/// `Exec=`, which starts the line of a desktop entry naming the program to run.
pub open spec fn exec_key() -> Seq<char> {
    seq!['E', 'x', 'e', 'c', '=']
}

/// A line of the installed desktop entry: an `Exec=` line names `exe`; every other line
/// is kept; each ends with a newline.
pub open spec fn entry_line(line: Seq<char>, exe: Seq<char>) -> Seq<char> {
    if has_prefix(line, exec_key()) {
        exec_key() + exe + seq!['\n']
    } else {
        line + seq!['\n']
    }
}

/// The desktop entry to install: the template's lines (see `text_lines`), its `Exec=`
/// lines naming `exe`.
pub open spec fn desktop_entry(template: Seq<char>, exe: Seq<char>) -> Seq<char> {
    flatten(text_lines(template).map_values(|l: Seq<char>| entry_line(l, exe)))
}

/// The desktop entry to install from `template`, running `exe` (see `desktop_entry`).
pub fn desktop_entry_with_exec(template: &str, exe: &str) -> (out: String)
    ensures
        out@ == desktop_entry(template@, exe@),
{
    let lines = text_lines_of(template);
    let key = vec!['E', 'x', 'e', 'c', '='];
    assert(key@ =~= exec_key());
    let ghost ls = crate::text::strings_v(lines@);
    let mut out = String::new();
    let mut i: usize = 0;
    while i < lines.len()
        invariant
            i <= lines@.len(),
            key@ == exec_key(),
            ls == crate::text::strings_v(lines@),
            ls == text_lines(template@),
            out@ == flatten(ls.take(i as int).map_values(|l: Seq<char>| entry_line(l, exe@))),
        decreases lines@.len() - i,
    {
        let ghost before = out@;
        let cs = str_to_chars(lines[i].as_str());
        if chars_start_with(&cs, &key) {
            push_str(&mut out, "Exec=");
            proof {
                reveal_strlit("Exec=");
            }
            push_str(&mut out, exe);
        } else {
            push_str(&mut out, lines[i].as_str());
        }
        push_char(&mut out, '\n');
        proof {
            let l = ls[i as int];
            assert(l == lines@[i as int]@);
            let m = ls.take(i + 1).map_values(|l: Seq<char>| entry_line(l, exe@));
            assert(m.drop_last() =~= ls.take(i as int).map_values(|l: Seq<char>| entry_line(l, exe@)));
            assert(m.last() == entry_line(l, exe@));
            crate::text::lemma_flatten_push(m.drop_last(), m.last());
            assert(m.drop_last().push(m.last()) =~= m);
            assert(out@ =~= before + entry_line(l, exe@));
        }
        i = i + 1;
    }
    proof {
        assert(ls.take(lines@.len() as int) =~= ls);
    }
    out
}

/// `gnome`.
pub open spec fn gnome() -> Seq<char> {
    seq!['g', 'n', 'o', 'm', 'e']
}

/// The desktop session names GNOME: `gnome` occurs in it, whatever the case of its ASCII
/// letters.
pub open spec fn is_gnome(desktop: Seq<char>) -> bool {
    find_from(desktop.map_values(|c: char| ascii_lower(c)), gnome(), 0) is Some
}

/// Whether the desktop session `desktop` (as `XDG_CURRENT_DESKTOP` names it) is GNOME
/// (see `is_gnome`).
pub fn is_gnome_desktop(desktop: &str) -> (r: bool)
    ensures
        r == is_gnome(desktop@),
{
    let lower = lower_chars(desktop);
    let g = vec!['g', 'n', 'o', 'm', 'e'];
    assert(g@ =~= gnome());
    find_chars(lower.as_slice(), g.as_slice(), 0).is_some()
}

} // verus!
