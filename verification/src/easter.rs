//! The easter dataset: one video per line, written `id,url`, and a pick of
//! one of them for a given seed.

use vstd::prelude::*;
use crate::text::{chars_to_string, decimal, decimal_string, to_chars};

verus! {

/// `s` cut at every `sep`, as `str::split` cuts it: `n` separators give
/// `n + 1` pieces, empty ones included.
pub open spec fn split_at_char(s: Seq<char>, sep: char) -> Seq<Seq<char>>
    decreases s.len(),
{
    if s.len() == 0 {
        seq![Seq::empty()]
    } else {
        let init = split_at_char(s.drop_last(), sep);
        if s.last() == sep {
            init.push(Seq::empty())
        } else {
            init.update(init.len() - 1, init.last().push(s.last()))
        }
    }
}

/// The video of one line: its first two comma-separated fields, where the
/// line has at least two.
pub open spec fn row_entry(row: Seq<char>) -> Option<(Seq<char>, Seq<char>)> {
    let fields = split_at_char(row, ',');
    if fields.len() >= 2 {
        Some((fields[0], fields[1]))
    } else {
        None
    }
}

/// The videos of the lines that have one, in order.
pub open spec fn rows_entries(rows: Seq<Seq<char>>) -> Seq<(Seq<char>, Seq<char>)>
    decreases rows.len(),
{
    if rows.len() == 0 {
        Seq::empty()
    } else {
        let init = rows_entries(rows.drop_last());
        match row_entry(rows.last()) {
            Some(e) => init.push(e),
            None => init,
        }
    }
}

/// The videos of a dataset.
pub open spec fn dataset_entries(dataset: Seq<char>) -> Seq<(Seq<char>, Seq<char>)> {
    rows_entries(split_at_char(dataset, '\n'))
}

/// One video of the dataset.
#[derive(Debug)]
pub struct EasterEntry {
    pub id: String,
    pub url: String,
}

/// The views of the videos.
pub open spec fn entries_view(v: Seq<EasterEntry>) -> Seq<(Seq<char>, Seq<char>)> {
    v.map_values(|e: EasterEntry| (e.id@, e.url@))
}

/// The answer that presents a video, with the number of videos there are.
pub open spec fn video_reply(id: Seq<char>, count: nat, url: Seq<char>) -> Seq<char> {
    "🦉 Owl easter video "@ + id + " / "@ + decimal(count) + " [🔗]("@ + url + ")"@
}

/// The answer when the dataset holds no video.
pub open spec fn no_video_reply() -> Seq<char> {
    "Failed to find resource :("@
}

proof fn lemma_split_nonempty(s: Seq<char>, sep: char)
    ensures
        split_at_char(s, sep).len() >= 1,
    decreases s.len(),
{
    if s.len() > 0 {
        lemma_split_nonempty(s.drop_last(), sep);
    }
}

/// The lines of the first `i` characters of a dataset.
spec fn lines_read(ds: Seq<char>, i: int) -> Seq<Seq<char>> {
    split_at_char(ds.take(i), '\n')
}

/// The fields of the last of those lines.
spec fn fields_read(ds: Seq<char>, i: int) -> Seq<Seq<char>> {
    split_at_char(lines_read(ds, i).last(), ',')
}

/// The videos of a dataset, one for every line that has an `id,url` start.
pub fn parse_dataset(dataset: &str) -> (entries: Vec<EasterEntry>)
    ensures
        entries_view(entries@) == dataset_entries(dataset@),
{
    let chars = to_chars(dataset);
    let ghost ds = dataset@;
    let mut entries: Vec<EasterEntry> = Vec::new();
    let mut id: Vec<char> = Vec::new();
    let mut url: Vec<char> = Vec::new();
    let mut commas: u8 = 0;
    let mut i: usize = 0;
    proof {
        assert(ds.take(0) =~= Seq::<char>::empty());
    }
    while i < chars.len()
        invariant
            chars@ == ds,
            i <= chars.len(),
            commas <= 2,
            lines_read(ds, i as int).len() >= 1,
            fields_read(ds, i as int).len() >= 1,
            entries_view(entries@) == rows_entries(lines_read(ds, i as int).drop_last()),
            id@ == fields_read(ds, i as int)[0],
            commas == (if fields_read(ds, i as int).len() >= 3 {
                2
            } else {
                fields_read(ds, i as int).len() - 1
            }),
            commas == 0 ==> url@.len() == 0,
            commas >= 1 ==> url@ == fields_read(ds, i as int)[1],
        decreases chars.len() - i,
    {
        let c = chars[i];
        let ghost lines = lines_read(ds, i as int);
        proof {
            assert(ds.take(i + 1).drop_last() =~= ds.take(i as int));
            assert(ds.take(i + 1).last() == c);
        }
        if c == '\n' {
            if commas >= 1 {
                let ghost before = entries@;
                let e = EasterEntry { id: chars_to_string(&id), url: chars_to_string(&url) };
                entries.push(e);
                proof {
                    assert(entries_view(entries@) =~= entries_view(before).push((e.id@, e.url@)));
                }
            }
            id = Vec::new();
            url = Vec::new();
            commas = 0;
            proof {
                let nl = split_at_char(ds.take(i + 1), '\n');
                assert(nl == lines.push(Seq::empty()));
                assert(nl.drop_last() =~= lines);
                assert(lines =~= lines.drop_last().push(lines.last()));
                assert(split_at_char(Seq::<char>::empty(), ',') == seq![Seq::<char>::empty()]);
            }
        } else {
            proof {
                lemma_split_nonempty(lines.last(), ',');
                let nl = split_at_char(ds.take(i + 1), '\n');
                assert(nl == lines.update(lines.len() - 1, lines.last().push(c)));
                assert(nl.drop_last() =~= lines.drop_last());
                assert(nl.last() == lines.last().push(c));
                assert(lines.last().push(c).drop_last() =~= lines.last());
            }
            if c == ',' {
                if commas < 2 {
                    commas = commas + 1;
                }
            } else if commas == 0 {
                id.push(c);
            } else if commas == 1 {
                url.push(c);
            }
        }
        i += 1;
    }
    let ghost lines = split_at_char(ds, '\n');
    if commas >= 1 {
        let ghost before = entries@;
        let e = EasterEntry { id: chars_to_string(&id), url: chars_to_string(&url) };
        entries.push(e);
        proof {
            assert(entries_view(entries@) =~= entries_view(before).push((e.id@, e.url@)));
        }
    }
    proof {
        assert(ds.take(ds.len() as int) =~= ds);
        assert(lines =~= lines.drop_last().push(lines.last()));
    }
    entries
}

/// Calls `rand::seq::IteratorRandom::choose` on the indices `0..len` with a
/// `rand::rngs::StdRng` seeded by `seed`. For a range, whose length is
/// exact, it draws the same index that `SliceRandom::choose` draws for a
/// slice of `len` items. Which index comes out is up to the generator; what
/// is stated holds of every pick: there is one exactly when `len > 0`, and
/// it is below `len`.
#[verifier::external_body]
fn choose_index(len: usize, seed: u64) -> (chosen: Option<usize>)
    ensures
        chosen is None <==> len == 0,
        chosen matches Some(i) ==> i < len,
{
    rand::seq::IteratorRandom::choose(
        0..len,
        &mut <rand::rngs::StdRng as rand::SeedableRng>::seed_from_u64(seed),
    )
}

/// The answer for a picked video (or for none), out of `count` videos.
pub fn easter_reply(count: usize, chosen: Option<&EasterEntry>) -> (reply: Result<String, String>)
    ensures
        match chosen {
            Some(e) => reply matches Ok(r) && r@ == video_reply(e.id@, count as nat, e.url@),
            None => reply matches Err(m) && m@ == no_video_reply(),
        },
{
    match chosen {
        Some(e) => {
            let mut r = String::from_str("🦉 Owl easter video ");
            r.append(e.id.as_str());
            r.append(" / ");
            let n = decimal_string(count as u64);
            r.append(n.as_str());
            r.append(" [🔗](");
            r.append(e.url.as_str());
            r.append(")");
            Ok(r)
        },
        None => Err(String::from_str("Failed to find resource :(")),
    }
}

/// The easter command: a video of the dataset picked with `seed`, or the
/// failure answer when the dataset holds none.
pub fn easter(dataset: &str, seed: u64) -> (reply: Result<String, String>)
    ensures
        dataset_entries(dataset@).len() == 0 <==> reply is Err,
        reply matches Err(m) ==> m@ == no_video_reply(),
        reply matches Ok(r) ==> exists|i: int|
            0 <= i < dataset_entries(dataset@).len() && r@ == video_reply(
                (#[trigger] dataset_entries(dataset@)[i]).0,
                dataset_entries(dataset@).len(),
                dataset_entries(dataset@)[i].1,
            ),
{
    let entries = parse_dataset(dataset);
    let count = entries.len();
    let picked = choose_index(count, seed);
    let chosen = match picked {
        Some(i) => Some(&entries[i]),
        None => None,
    };
    proof {
        assert(entries_view(entries@).len() == entries@.len());
        if let Some(i) = picked {
            assert(entries_view(entries@)[i as int] == (entries@[i as int].id@, entries@[i as int].url@));
        }
    }
    easter_reply(count, chosen)
}

} // verus!
