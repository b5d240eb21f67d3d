//! Splitting the multi-line ASCII art into rows.
use vstd::prelude::*;

verus! {

/// The rows joined back together, one newline between each two.
pub open spec fn join_rows(rows: Seq<Seq<char>>) -> Seq<char>
    decreases rows.len(),
{
    if rows.len() == 0 {
        Seq::empty()
    } else if rows.len() == 1 {
        rows[0]
    } else {
        join_rows(rows.drop_last()) + seq!['\n'] + rows.last()
    }
}

/// The text with one newline taken off its start and one off its end, where
/// they are there.
pub open spec fn trim_newlines(text: Seq<char>) -> Seq<char> {
    let a = if text.len() > 0 && text[0] == '\n' { text.drop_first() } else { text };
    if a.len() > 0 && a.last() == '\n' { a.drop_last() } else { a }
}

proof fn lemma_join_push_char(rows: Seq<Seq<char>>, cur: Seq<char>, c: char)
    ensures
        join_rows(rows.push(cur.push(c))) == join_rows(rows.push(cur)).push(c),
{
    let a = rows.push(cur.push(c));
    let b = rows.push(cur);
    assert(a.drop_last() =~= rows);
    assert(b.drop_last() =~= rows);
    if rows.len() == 0 {
        assert(join_rows(a) == cur.push(c));
    } else {
        assert(join_rows(a) =~= join_rows(rows) + seq!['\n'] + cur.push(c));
    }
}

proof fn lemma_join_push_empty(rows: Seq<Seq<char>>, cur: Seq<char>)
    ensures
        join_rows(rows.push(cur).push(Seq::empty())) == join_rows(rows.push(cur)).push('\n'),
{
    let a = rows.push(cur).push(Seq::empty());
    assert(a.drop_last() =~= rows.push(cur));
    assert(join_rows(a) =~= join_rows(rows.push(cur)) + seq!['\n'] + Seq::<char>::empty());
}

/// Splits `text` at each newline, after one newline is taken off its start
/// and one off its end. The rows hold no newline and, joined with newlines,
/// give the trimmed text back.
pub fn art_rows(text: &Vec<char>) -> (rows: Vec<Vec<char>>)
    ensures
        join_rows(rows@.map_values(|r: Vec<char>| r@)) == trim_newlines(text@),
        forall|i: int| 0 <= i < rows@.len() ==> !(#[trigger] rows@[i])@.contains('\n'),
        rows@.len() >= 1,
{
    let n = text.len();
    let start: usize = if n > 0 && text[0] == '\n' { 1 } else { 0 };
    let end: usize = if n > start && text[n - 1] == '\n' { n - 1 } else { n };
    proof {
        let a = if text@.len() > 0 && text@[0] == '\n' { text@.drop_first() } else { text@ };
        assert(a =~= text@.subrange(start as int, n as int));
        assert(trim_newlines(text@) =~= text@.subrange(start as int, end as int));
    }
    let mut rows: Vec<Vec<char>> = Vec::new();
    let mut cur: Vec<char> = Vec::new();
    let mut i: usize = start;
    while i < end
        invariant
            start <= i <= end <= n == text@.len(),
            join_rows(rows@.map_values(|r: Vec<char>| r@).push(cur@)) == text@.subrange(start as int, i as int),
            forall|k: int| 0 <= k < rows@.len() ==> !(#[trigger] rows@[k])@.contains('\n'),
            !cur@.contains('\n'),
        decreases end - i,
    {
        let c = text[i];
        let ghost views = rows@.map_values(|r: Vec<char>| r@);
        if c == '\n' {
            let done = cur;
            rows.push(done);
            cur = Vec::new();
            proof {
                lemma_join_push_empty(views, done@);
                assert(rows@.map_values(|r: Vec<char>| r@) =~= views.push(done@));
                assert(cur@ =~= Seq::<char>::empty());
            }
        } else {
            let ghost before = cur@;
            cur.push(c);
            proof {
                lemma_join_push_char(views, before, c);
                assert(!cur@.contains('\n')) by {
                    assert forall|k: int| 0 <= k < cur@.len() implies cur@[k] != '\n' by {
                        if k < before.len() {
                            assert(cur@[k] == before[k]);
                        }
                    }
                }
            }
        }
        i += 1;
        proof {
            assert(text@.subrange(start as int, i as int) =~= text@.subrange(start as int, i - 1).push(c));
        }
    }
    let ghost views = rows@.map_values(|r: Vec<char>| r@);
    rows.push(cur);
    proof {
        assert(rows@.map_values(|r: Vec<char>| r@) =~= views.push(cur@));
    }
    rows
}

} // verus!
