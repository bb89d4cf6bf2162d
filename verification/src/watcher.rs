//! The change watcher's decision logic: which of a burst of changed paths
//! concern the cache, and whether the batch warrants an invalidation at all.
//! Subscribing to the filesystem, debouncing and the long-lived loop are the
//! embedding program's business; it hands each coalesced batch of paths in
//! and performs the invalidation and the change notification when told to.

use vstd::prelude::*;

verus! {

/// Whether a path names a log file: its last component ends in the log
/// extension with a non-empty stem before it.
pub open spec fn is_jsonl_path(s: Seq<char>) -> bool {
    s.len() >= 7 && s.subrange(s.len() - 6, s.len() as int) == ".jsonl"@ && s[s.len() - 7] != '/'
}

/// Whether a path string names a log file.
pub fn path_has_jsonl_ext(s: &str) -> (r: bool)
    ensures
        r == is_jsonl_path(s@),
{
    let n = s.unicode_len();
    if n < 7 {
        return false;
    }
    proof {
        reveal_strlit(".jsonl");
    }
    let suffix_ok = s.get_char(n - 6) == '.' && s.get_char(n - 5) == 'j' && s.get_char(n - 4)
        == 's' && s.get_char(n - 3) == 'o' && s.get_char(n - 2) == 'n' && s.get_char(n - 1)
        == 'l';
    if !suffix_ok {
        proof {
            assert(s@.subrange(s@.len() - 6, s@.len() as int) != ".jsonl"@) by {
                if s@.subrange(s@.len() - 6, s@.len() as int) == ".jsonl"@ {
                    assert(s@[s@.len() - 6] == ".jsonl"@[0]);
                    assert(s@[s@.len() - 5] == ".jsonl"@[1]);
                    assert(s@[s@.len() - 4] == ".jsonl"@[2]);
                    assert(s@[s@.len() - 3] == ".jsonl"@[3]);
                    assert(s@[s@.len() - 2] == ".jsonl"@[4]);
                    assert(s@[s@.len() - 1] == ".jsonl"@[5]);
                }
            }
        }
        return false;
    }
    proof {
        assert(s@.subrange(s@.len() - 6, s@.len() as int) =~= ".jsonl"@);
    }
    s.get_char(n - 7) != '/'
}

/// The log-file paths among a batch, in order.
pub open spec fn spec_filter_jsonl(ps: Seq<Seq<char>>) -> Seq<Seq<char>>
    decreases ps.len(),
{
    if ps.len() == 0 {
        Seq::empty()
    } else {
        let pre = spec_filter_jsonl(ps.drop_last());
        if is_jsonl_path(ps.last()) {
            pre.push(ps.last())
        } else {
            pre
        }
    }
}

/// Keeps the paths that name log files.
pub fn filter_jsonl_paths(paths: &Vec<String>) -> (r: Vec<String>)
    ensures
        r@.map_values(|p: String| p@) == spec_filter_jsonl(paths@.map_values(|p: String| p@)),
{
    let mut out: Vec<String> = Vec::new();
    let mut j: usize = 0;
    proof {
        assert(paths@.subrange(0, 0).map_values(|p: String| p@) =~= Seq::<Seq<char>>::empty());
        assert(out@.map_values(|p: String| p@) =~= spec_filter_jsonl(
            paths@.subrange(0, 0).map_values(|p: String| p@),
        ));
    }
    while j < paths.len()
        invariant
            j <= paths@.len(),
            out@.map_values(|p: String| p@) == spec_filter_jsonl(
                paths@.subrange(0, j as int).map_values(|p: String| p@),
            ),
        decreases paths@.len() - j,
    {
        let ghost prefix = paths@.subrange(0, j as int).map_values(|p: String| p@);
        let ghost prefix2 = paths@.subrange(0, j as int + 1).map_values(|p: String| p@);
        proof {
            assert(prefix2.drop_last() =~= prefix);
            assert(prefix2.last() == paths@[j as int]@);
        }
        let ghost old_out = out@;
        if path_has_jsonl_ext(paths[j].as_str()) {
            out.push(paths[j].clone());
            proof {
                assert(out@.map_values(|p: String| p@) =~= old_out.map_values(
                    |p: String| p@,
                ).push(paths@[j as int]@));
            }
        }
        j = j + 1;
        proof {
            assert(out@.map_values(|p: String| p@) =~= spec_filter_jsonl(prefix2));
        }
    }
    proof {
        assert(paths@.subrange(0, paths@.len() as int) =~= paths@);
    }
    out
}

/// What the watcher does with one coalesced batch of changed paths: nothing
/// when no log file is among them, else invalidate exactly the log-file
/// paths (and then signal that data changed).
pub fn plan_invalidation(event_paths: &Vec<String>) -> (r: Option<Vec<String>>)
    ensures
        (match r {
            Option::None => spec_filter_jsonl(event_paths@.map_values(|p: String| p@)).len()
                == 0,
            Option::Some(v) => v@.map_values(|p: String| p@) == spec_filter_jsonl(
                event_paths@.map_values(|p: String| p@),
            ) && v@.len() > 0,
        }),
{
    let filtered = filter_jsonl_paths(event_paths);
    if filtered.len() == 0 {
        proof {
            assert(filtered@.map_values(|p: String| p@).len() == 0);
        }
        Option::None
    } else {
        proof {
            assert(filtered@.map_values(|p: String| p@).len() > 0);
        }
        Option::Some(filtered)
    }
}

} // verus!
