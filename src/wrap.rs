//! Turning a newest-first message history into width-bounded screen lines.
use vstd::prelude::*;

verus! {

/// The text of each string in `v`.
pub open spec fn texts(v: Seq<String>) -> Seq<Seq<char>> {
    v.map_values(|s: String| s@)
}

/// `s` cut into pieces of `w` characters each; the last piece may be shorter.
pub open spec fn chunks(s: Seq<char>, w: nat) -> Seq<Seq<char>>
    decreases s.len(),
{
    if s.len() == 0 || w == 0 {
        seq![]
    } else if s.len() <= w {
        seq![s]
    } else {
        seq![s.take(w as int)] + chunks(s.skip(w as int), w)
    }
}

/// Wrapping from record `i` on, with `acc` the lines gathered so far: each
/// record's pieces go in front of those gathered, until `max_rows` lines are
/// gathered or the records run out.
pub open spec fn wrap_from(
    records: Seq<Seq<char>>,
    max_rows: nat,
    w: nat,
    i: nat,
    acc: Seq<Seq<char>>,
) -> Seq<Seq<char>>
    decreases records.len() - i,
{
    if i >= records.len() || acc.len() >= max_rows {
        acc
    } else {
        wrap_from(records, max_rows, w, i + 1, chunks(records[i as int], w) + acc)
    }
}

/// The screen lines of a newest-first history, oldest at the top.
pub open spec fn wrapped(records: Seq<Seq<char>>, max_rows: nat, w: nat) -> Seq<Seq<char>> {
    wrap_from(records, max_rows, w, 0, seq![])
}

/// The pieces of the `k` newest records, the oldest of them on top.
pub open spec fn stacked(records: Seq<Seq<char>>, w: nat, k: nat) -> Seq<Seq<char>>
    decreases k,
{
    if k == 0 {
        seq![]
    } else {
        chunks(records[k - 1], w) + stacked(records, w, (k - 1) as nat)
    }
}

/// Cuts `s` into pieces of `columns` characters.
fn chunk_line(s: &str, columns: usize) -> (r: Vec<String>)
    requires
        columns > 0,
    ensures
        texts(r@) == chunks(s@, columns as nat),
{
    let n = s.unicode_len();
    let mut r: Vec<String> = Vec::new();
    let mut i: usize = 0;
    assert(s@.skip(0) == s@);
    assert(texts(r@) == Seq::<Seq<char>>::empty());
    while i < n
        invariant
            columns > 0,
            n == s@.len(),
            i <= n,
            texts(r@) + chunks(s@.skip(i as int), columns as nat) == chunks(s@, columns as nat),
        decreases n - i,
    {
        let ghost rest = s@.skip(i as int);
        let end: usize = if n - i <= columns {
            n
        } else {
            i + columns
        };
        let piece = s.substring_char(i, end);
        let ghost before = texts(r@);
        r.push(String::from_str(piece));
        proof {
            assert(texts(r@) == before.push(piece@));
            if n - i <= columns {
                assert(piece@ == rest);
                assert(s@.skip(end as int).len() == 0);
            } else {
                assert(piece@ == rest.take(columns as int));
                assert(rest.skip(columns as int) == s@.skip(end as int));
            }
            assert(texts(r@) + chunks(s@.skip(end as int), columns as nat) == before + chunks(
                rest,
                columns as nat,
            ));
        }
        i = end;
    }
    assert(texts(r@) + chunks(s@.skip(i as int), columns as nat) == texts(r@));
    r
}

/// Builds the screen lines of `messages` (newest first): oldest message on
/// top, each message cut into pieces of `columns` characters in reading
/// order. Stops taking messages once `max_rows` lines are gathered, so the
/// result may pass `max_rows` by the pieces of one message.
pub fn build_messages_string_list(messages: Vec<String>, max_rows: usize, columns: usize) -> (r:
    Vec<String>)
    requires
        messages@.len() > 0 ==> columns > 0,
    ensures
        texts(r@) == wrapped(texts(messages@), max_rows as nat, columns as nat),
{
    let ghost recs = texts(messages@);
    let mut result: Vec<String> = Vec::new();
    let mut i: usize = 0;
    assert(texts(result@) == Seq::<Seq<char>>::empty());
    while i < messages.len() && result.len() < max_rows
        invariant
            i <= messages@.len(),
            messages@.len() > 0 ==> columns > 0,
            recs == texts(messages@),
            wrap_from(recs, max_rows as nat, columns as nat, i as nat, texts(result@)) == wrapped(
                recs,
                max_rows as nat,
                columns as nat,
            ),
        decreases messages@.len() - i,
    {
        let mut lines = chunk_line(messages[i].as_str(), columns);
        let ghost front = texts(lines@);
        let ghost back = texts(result@);
        lines.append(&mut result);
        assert(texts(lines@) == front + back);
        result = lines;
        i = i + 1;
    }
    result
}

/// An empty history wraps to no lines, whatever the bounds.
pub proof fn lemma_wrap_empty(max_rows: nat, w: nat)
    ensures
        wrapped(seq![], max_rows, w) == Seq::<Seq<char>>::empty(),
{
}

/// A non-empty text makes at least one piece.
pub proof fn lemma_chunks_nonempty(s: Seq<char>, w: nat)
    requires
        s.len() > 0,
        w > 0,
    ensures
        chunks(s, w).len() >= 1,
{
}

proof fn lemma_wrap_from_stacked(records: Seq<Seq<char>>, max_rows: nat, w: nat, i: nat)
    requires
        i <= records.len(),
        forall|j: nat| j < i ==> (#[trigger] stacked(records, w, j)).len() < max_rows,
    ensures
        exists|k: nat|
            {
                &&& i <= k <= records.len()
                &&& wrap_from(records, max_rows, w, i, stacked(records, w, i)) == stacked(
                    records,
                    w,
                    k,
                )
                &&& k < records.len() ==> stacked(records, w, k).len() >= max_rows
                &&& forall|j: nat| j < k ==> (#[trigger] stacked(records, w, j)).len() < max_rows
            },
    decreases records.len() - i,
{
    if i >= records.len() || stacked(records, w, i).len() >= max_rows {
        assert(wrap_from(records, max_rows, w, i, stacked(records, w, i)) == stacked(
            records,
            w,
            i,
        ));
    } else {
        assert(stacked(records, w, i + 1) == chunks(records[i as int], w) + stacked(
            records,
            w,
            i,
        ));
        lemma_wrap_from_stacked(records, max_rows, w, i + 1);
    }
}

/// The shape of a wrapping: the lines are the pieces of the `k` newest
/// records, oldest on top, where `k` is the first count whose pieces fill
/// `max_rows` lines (or all records). So the result never holds more than the
/// pieces of the records taken, and, when the newest record is not empty,
/// it is empty only for an empty history.
pub proof fn lemma_wrap_shape(records: Seq<Seq<char>>, max_rows: nat, w: nat)
    requires
        w > 0,
        max_rows > 0,
        records.len() > 0 ==> records[0].len() > 0,
    ensures
        exists|k: nat|
            {
                &&& k <= records.len()
                &&& wrapped(records, max_rows, w) == stacked(records, w, k)
                &&& k < records.len() ==> stacked(records, w, k).len() >= max_rows
                &&& forall|j: nat| j < k ==> (#[trigger] stacked(records, w, j)).len() < max_rows
            },
        wrapped(records, max_rows, w).len() == 0 <==> records.len() == 0,
{
    assert(stacked(records, w, 0) == Seq::<Seq<char>>::empty());
    lemma_wrap_from_stacked(records, max_rows, w, 0);
    let k = choose|k: nat|
        {
            &&& k <= records.len()
            &&& wrapped(records, max_rows, w) == stacked(records, w, k)
            &&& k < records.len() ==> stacked(records, w, k).len() >= max_rows
            &&& forall|j: nat| j < k ==> (#[trigger] stacked(records, w, j)).len() < max_rows
        };
    if records.len() > 0 {
        if k == 0 {
            assert(stacked(records, w, 0).len() >= max_rows);
        } else {
            lemma_stacked_grows(records, w, k);
        }
    }
}

proof fn lemma_stacked_grows(records: Seq<Seq<char>>, w: nat, k: nat)
    requires
        1 <= k <= records.len(),
        records[0].len() > 0,
        w > 0,
    ensures
        stacked(records, w, k).len() >= 1,
    decreases k,
{
    if k == 1 {
        lemma_chunks_nonempty(records[0], w);
    } else {
        lemma_stacked_grows(records, w, (k - 1) as nat);
    }
}

} // verus!
