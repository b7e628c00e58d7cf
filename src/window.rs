//! Window records and the parser for the window manager's listing.
use vstd::prelude::*;
use crate::text::{chars_of, find_char, split_once, trim, trim_range};

verus! {

/// One window as the window manager lists it.
#[derive(Clone, Debug, PartialEq, Eq)]
pub struct WindowInfo {
    pub id: String,
    pub name: String,
    pub info: String,
}

/// The mathematical value of a [`WindowInfo`].
pub struct WindowView {
    pub id: Seq<char>,
    pub name: Seq<char>,
    pub info: Seq<char>,
}

impl View for WindowInfo {
    type V = WindowView;

    open spec fn view(&self) -> WindowView {
        WindowView { id: self.id@, name: self.name@, info: self.info@ }
    }
}

/// The views of a sequence of windows.
pub open spec fn views_of(ws: Seq<WindowInfo>) -> Seq<WindowView> {
    Seq::new(ws.len(), |i: int| ws[i]@)
}

/// The record that one line of the listing describes: the line is cut at its
/// first two `|`, and the three parts, trimmed, are the id, the name and the
/// info. A line with fewer than two `|` (a blank one among them) describes none.
pub open spec fn parse_line(line: Seq<char>) -> Option<WindowView> {
    match split_once(line, '|') {
        None => None,
        Some((first, rest)) => match split_once(rest, '|') {
            None => None,
            Some((second, third)) => Some(
                WindowView { id: trim(first), name: trim(second), info: trim(third) },
            ),
        },
    }
}

/// The record of a line, as a sequence of zero or one element.
pub open spec fn records_of_line(line: Seq<char>) -> Seq<WindowView> {
    match parse_line(line) {
        Some(w) => seq![w],
        None => Seq::empty(),
    }
}

/// The records of a whole listing: its lines are separated by `\n`, and each
/// line contributes its record, in order.
pub open spec fn parse_listing(s: Seq<char>) -> Seq<WindowView>
    decreases s.len(),
{
    match split_once(s, '\n') {
        Some((line, rest)) => records_of_line(line) + parse_listing(rest),
        None => records_of_line(s),
    }
}

fn parse_range(v: &Vec<char>, lo: usize, hi: usize) -> (r: Option<WindowInfo>)
    requires
        lo <= hi <= v@.len(),
    ensures
        match r {
            Some(w) => parse_line(v@.subrange(lo as int, hi as int)) == Some(w@),
            None => parse_line(v@.subrange(lo as int, hi as int)) is None,
        },
{
    match find_char(v, '|', lo, hi) {
        None => None,
        Some(i) => match find_char(v, '|', i + 1, hi) {
            None => None,
            Some(j) => {
                let id = trim_range(v, lo, i);
                let name = trim_range(v, i + 1, j);
                let info = trim_range(v, j + 1, hi);
                Some(WindowInfo { id, name, info })
            },
        },
    }
}

/// Parses one line of the listing into a record, if it has three fields.
pub fn parse_window_line(line: &str) -> (r: Option<WindowInfo>)
    ensures
        match r {
            Some(w) => parse_line(line@) == Some(w@),
            None => parse_line(line@) is None,
        },
{
    let v = chars_of(line);
    assert(v@.subrange(0, v@.len() as int) =~= v@);
    parse_range(&v, 0, v.len())
}

/// Parses the whole listing: one record per well-formed line, in the listing's
/// order; blank and malformed lines are dropped.
pub fn parse_window_list(output: &str) -> (r: Vec<WindowInfo>)
    ensures
        views_of(r@) == parse_listing(output@),
{
    let v = chars_of(output);
    let n = v.len();
    let mut out: Vec<WindowInfo> = Vec::new();
    let mut start: usize = 0;
    assert(v@.subrange(0, n as int) =~= v@);
    loop
        invariant
            start <= n == v@.len(),
            v@ == output@,
            parse_listing(output@) == views_of(out@) + parse_listing(
                v@.subrange(start as int, n as int),
            ),
        decreases n - start,
    {
        match find_char(&v, '\n', start, n) {
            Some(i) => {
                let rec = parse_range(&v, start, i);
                proof {
                    let s = v@.subrange(start as int, n as int);
                    assert(parse_listing(s) == records_of_line(v@.subrange(start as int, i as int))
                        + parse_listing(v@.subrange(i + 1, n as int)));
                }
                let ghost before = views_of(out@);
                let ghost tail = parse_listing(v@.subrange(i + 1, n as int));
                match rec {
                    Some(w) => {
                        out.push(w);
                        proof {
                            assert(views_of(out@) =~= before + seq![w@]);
                            assert(before + (seq![w@] + tail) =~= views_of(out@) + tail);
                        }
                    },
                    None => {
                        assert(before + (Seq::<WindowView>::empty() + tail) =~= before + tail);
                    },
                }
                start = i + 1;
            },
            None => {
                let rec = parse_range(&v, start, n);
                match rec {
                    Some(w) => {
                        let ghost before = out@;
                        out.push(w);
                        proof {
                            assert(views_of(out@) =~= views_of(before) + seq![w@]);
                        }
                    },
                    None => {
                        assert(views_of(out@) + Seq::<WindowView>::empty() =~= views_of(out@));
                    },
                }
                return out;
            },
        }
    }
}

} // verus!
