//! The screen as rows of text, top to bottom: the scrollback region, a rule,
//! the input line and another rule.
use vstd::prelude::*;
use crate::wrap::{build_messages_string_list, texts, wrapped};

verus! {

/// A horizontal rule across `columns` cells.
pub open spec fn rule(columns: nat) -> Seq<char> {
    Seq::new(columns, |i: int| '-')
}

/// The `height` rows of the scrollback region: the last `height` lines, with
/// blank rows above them when there are fewer.
pub open spec fn scrollback(lines: Seq<Seq<char>>, height: nat) -> Seq<Seq<char>> {
    if lines.len() >= height {
        lines.skip(lines.len() - height)
    } else {
        Seq::new((height - lines.len()) as nat, |i: int| Seq::<char>::empty()) + lines
    }
}

/// The whole screen of `rows` rows and `columns` columns for a newest-first history.
pub open spec fn screen(records: Seq<Seq<char>>, columns: nat, rows: nat) -> Seq<Seq<char>> {
    let height = (rows - 3) as nat;
    scrollback(wrapped(records, height, columns), height) + seq![
        rule(columns),
        Seq::<char>::empty(),
        rule(columns),
    ]
}

/// The rule drawn above and below the input line.
pub fn delimiter_line(columns: usize) -> (r: String)
    ensures
        r@ == rule(columns as nat),
{
    let mut r = String::new();
    let mut i: usize = 0;
    proof {
        reveal_strlit("-");
    }
    while i < columns
        invariant
            i <= columns,
            r@ == rule(i as nat),
            "-"@ == seq!['-'],
        decreases columns - i,
    {
        r.append("-");
        i = i + 1;
        assert(r@ == rule(i as nat));
    }
    r
}

/// Lays out the screen for a newest-first history: row `rows - 2` is the
/// input line, left blank here so that what the user types stays.
pub fn compose_screen(records: Vec<String>, columns: usize, rows: usize) -> (r: Vec<String>)
    requires
        columns > 0,
        rows >= 3,
    ensures
        texts(r@) == screen(texts(records@), columns as nat, rows as nat),
{
    let height: usize = rows - 3;
    let lines = build_messages_string_list(records, height, columns);
    let ghost shown = scrollback(texts(lines@), height as nat);
    let mut out: Vec<String> = Vec::new();
    let mut start: usize = 0;
    if lines.len() < height {
        let pad: usize = height - lines.len();
        let mut k: usize = 0;
        while k < pad
            invariant
                k <= pad,
                texts(out@) == Seq::new(k as nat, |i: int| Seq::<char>::empty()),
            decreases pad - k,
        {
            let ghost prev = texts(out@);
            out.push(String::new());
            assert(texts(out@) == prev.push(Seq::<char>::empty()));
            k = k + 1;
            assert(texts(out@) =~= Seq::new(k as nat, |i: int| Seq::<char>::empty()));
        }
    } else {
        start = lines.len() - height;
    }
    let ghost top = texts(out@);
    let mut j: usize = start;
    assert(texts(lines@).subrange(start as int, start as int) == Seq::<Seq<char>>::empty());
    while j < lines.len()
        invariant
            start <= j <= lines@.len(),
            texts(out@) == top + texts(lines@).subrange(start as int, j as int),
        decreases lines@.len() - j,
    {
        let ghost prev = texts(out@);
        let line = lines[j].clone();
        out.push(line);
        assert(texts(out@) == prev.push(texts(lines@)[j as int]));
        j = j + 1;
        assert(texts(out@) =~= top + texts(lines@).subrange(start as int, j as int));
    }
    assert(texts(out@) == shown);
    let ghost body = texts(out@);
    out.push(delimiter_line(columns));
    out.push(String::new());
    out.push(delimiter_line(columns));
    assert(texts(out@) == body + seq![rule(columns as nat), Seq::<char>::empty(), rule(columns as nat)]);
    out
}

} // verus!
