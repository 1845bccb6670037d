//! The laws of the merge: what the merged tables hold, for every file list.
//!
//! These proof functions state the resolver's guarantees over the
//! mathematical content of the parsed files, as the construction contracts
//! expose it.
use vstd::prelude::*;
use vstd::map::*;
use crate::casefold::lower_of;
use crate::casefold::upper_of;
use crate::config::merge_files_locations;
use crate::config::merge_files_options;
use crate::config::merge_locs;
use crate::config::merge_pairs;
use crate::config::merged_locations;
use crate::config::merged_options;
use crate::config::spec_get;
use crate::config::spec_get_bool;
use crate::config::spec_get_sint;
use crate::config::spec_get_uint;
use crate::config_file::FileView;

verus! {

/// Some pair of `ps` has a key that folds to `k`.
pub open spec fn pairs_define(ps: Seq<(Seq<char>, Seq<char>)>, k: Seq<char>) -> bool {
    exists|i: int| 0 <= i < ps.len() && upper_of(ps[i].0) == k
}

/// The file defines the normalized key `k`.
pub open spec fn file_defines(f: FileView, k: Seq<char>) -> bool {
    pairs_define(f.pairs, k)
}

/// The value of the last pair of `ps` whose key folds to `k`.
pub open spec fn last_pair_value(ps: Seq<(Seq<char>, Seq<char>)>, k: Seq<char>) -> Seq<char>
    decreases ps.len(),
{
    if ps.len() == 0 {
        Seq::empty()
    } else if upper_of(ps.last().0) == k {
        ps.last().1
    } else {
        last_pair_value(ps.drop_last(), k)
    }
}

/// Some file of the list defines `k`.
pub open spec fn some_file_defines(files: Seq<FileView>, k: Seq<char>) -> bool {
    exists|j: int| 0 <= j < files.len() && file_defines(files[j], k)
}

/// The index of the last file of the list that defines `k`.
pub open spec fn last_defining_file(files: Seq<FileView>, k: Seq<char>) -> int
    decreases files.len(),
{
    if files.len() == 0 {
        0
    } else if file_defines(files.last(), k) {
        files.len() - 1
    } else {
        last_defining_file(files.drop_last(), k)
    }
}

/// What folding one file's pairs over a table holds at each key: the value
/// of the file's last pair for that key where the file defines it, the
/// table's old value everywhere else.
proof fn lemma_merge_pairs_pointwise(
    acc: Map<Seq<char>, Seq<char>>,
    ps: Seq<(Seq<char>, Seq<char>)>,
    k: Seq<char>,
)
    ensures
        merge_pairs(acc, ps).contains_key(k) <==> acc.contains_key(k) || pairs_define(ps, k),
        pairs_define(ps, k) ==> merge_pairs(acc, ps)[k] == last_pair_value(ps, k),
        !pairs_define(ps, k) && acc.contains_key(k) ==> merge_pairs(acc, ps)[k] == acc[k],
    decreases ps.len(),
{
    if ps.len() > 0 {
        lemma_merge_pairs_pointwise(acc, ps.drop_last(), k);
        if upper_of(ps.last().0) == k {
            assert(upper_of(ps[ps.len() - 1].0) == k);
        } else {
            if pairs_define(ps, k) {
                let i = choose|i: int| 0 <= i < ps.len() && upper_of(ps[i].0) == k;
                assert(0 <= i < ps.len() - 1);
                assert(upper_of(ps.drop_last()[i].0) == k);
            }
            if pairs_define(ps.drop_last(), k) {
                let i = choose|i: int|
                    0 <= i < ps.drop_last().len() && upper_of(ps.drop_last()[i].0) == k;
                assert(upper_of(ps[i].0) == k);
            }
        }
    }
}

/// What folding one file's pairs over a locations table holds at each key:
/// the file's name where the file defines the key, the old entry elsewhere.
proof fn lemma_merge_locs_pointwise(
    acc: Map<Seq<char>, Seq<char>>,
    ps: Seq<(Seq<char>, Seq<char>)>,
    filename: Seq<char>,
    k: Seq<char>,
)
    ensures
        merge_locs(acc, ps, filename).contains_key(k) <==> acc.contains_key(k) || pairs_define(
            ps,
            k,
        ),
        pairs_define(ps, k) ==> merge_locs(acc, ps, filename)[k] == filename,
        !pairs_define(ps, k) && acc.contains_key(k) ==> merge_locs(acc, ps, filename)[k] == acc[k],
    decreases ps.len(),
{
    if ps.len() > 0 {
        lemma_merge_locs_pointwise(acc, ps.drop_last(), filename, k);
        if upper_of(ps.last().0) == k {
            assert(upper_of(ps[ps.len() - 1].0) == k);
        } else {
            if pairs_define(ps, k) {
                let i = choose|i: int| 0 <= i < ps.len() && upper_of(ps[i].0) == k;
                assert(0 <= i < ps.len() - 1);
                assert(upper_of(ps.drop_last()[i].0) == k);
            }
            if pairs_define(ps.drop_last(), k) {
                let i = choose|i: int|
                    0 <= i < ps.drop_last().len() && upper_of(ps.drop_last()[i].0) == k;
                assert(upper_of(ps[i].0) == k);
            }
        }
    }
}

/// What the merged tables hold at each key: nothing unless some file
/// defines the key; else, with `j` the last file that defines it, the
/// options table holds that file's last value for the key and the locations
/// table holds that file's name.
pub proof fn lemma_merge_files_pointwise(
    acc_o: Map<Seq<char>, Seq<char>>,
    acc_l: Map<Seq<char>, Seq<char>>,
    files: Seq<FileView>,
    k: Seq<char>,
)
    ensures
        merge_files_options(acc_o, files).contains_key(k) <==> acc_o.contains_key(k)
            || some_file_defines(files, k),
        merge_files_locations(acc_l, files).contains_key(k) <==> acc_l.contains_key(k)
            || some_file_defines(files, k),
        some_file_defines(files, k) ==> {
            let j = last_defining_file(files, k);
            &&& 0 <= j < files.len()
            &&& file_defines(files[j], k)
            &&& (forall|j2: int| j < j2 < files.len() ==> !file_defines(files[j2], k))
            &&& merge_files_options(acc_o, files)[k] == last_pair_value(files[j].pairs, k)
            &&& merge_files_locations(acc_l, files)[k] == files[j].filename
        },
        !some_file_defines(files, k) ==> {
            &&& (acc_o.contains_key(k) ==> merge_files_options(acc_o, files)[k] == acc_o[k])
            &&& (acc_l.contains_key(k) ==> merge_files_locations(acc_l, files)[k] == acc_l[k])
        },
    decreases files.len(),
{
    if files.len() > 0 {
        let prev = files.drop_last();
        lemma_merge_files_pointwise(acc_o, acc_l, prev, k);
        lemma_merge_pairs_pointwise(merge_files_options(acc_o, prev), files.last().pairs, k);
        lemma_merge_locs_pointwise(
            merge_files_locations(acc_l, prev),
            files.last().pairs,
            files.last().filename,
            k,
        );
        if file_defines(files.last(), k) {
            assert(file_defines(files[files.len() - 1], k));
        } else {
            if some_file_defines(files, k) {
                let j = choose|j: int| 0 <= j < files.len() && file_defines(files[j], k);
                assert(0 <= j < files.len() - 1);
                assert(file_defines(prev[j], k));
            }
            if some_file_defines(prev, k) {
                let j = choose|j: int| 0 <= j < prev.len() && file_defines(prev[j], k);
                assert(file_defines(files[j], k));
            }
            if some_file_defines(files, k) {
                let j = last_defining_file(files, k);
                assert(j == last_defining_file(prev, k));
                assert(prev[j] == files[j]);
                assert forall|j2: int| j < j2 < files.len() implies !file_defines(
                    files[j2],
                    k,
                ) by {
                    if j2 < files.len() - 1 {
                        assert(files[j2] == prev[j2]);
                    }
                }
            }
        }
    }
}

/// Overriding is per key, never wholesale per file: when file `a` is merged
/// before file `b`, every key `b` defines takes `b`'s value, and every key
/// only `a` defines keeps `a`'s value.
pub proof fn lemma_override_by_key(a: FileView, b: FileView, k: Seq<char>)
    ensures
        merged_options(seq![a, b]).contains_key(k) <==> file_defines(a, k) || file_defines(b, k),
        file_defines(b, k) ==> merged_options(seq![a, b])[k] == last_pair_value(b.pairs, k),
        file_defines(a, k) && !file_defines(b, k) ==> merged_options(seq![a, b])[k]
            == last_pair_value(a.pairs, k),
{
    let files = seq![a, b];
    lemma_merge_files_pointwise(Map::empty(), Map::empty(), files, k);
    assert(files[0] == a);
    assert(files[1] == b);
    assert(files.drop_last() =~= seq![a]);
    if file_defines(a, k) || file_defines(b, k) {
        if file_defines(b, k) {
            assert(file_defines(files[1], k));
            assert(last_defining_file(files, k) == 1);
        } else {
            assert(file_defines(files[0], k));
            assert(seq![a].last() == a);
            assert(last_defining_file(files, k) == 0);
        }
    }
}

/// Querying a key in either of two spellings with the same upper-case
/// folding yields identical results, plain and typed alike.
pub proof fn lemma_case_insensitive_get(
    m: Map<Seq<char>, Seq<char>>,
    k1: Seq<char>,
    k2: Seq<char>,
    min: int,
    max: int,
)
    requires
        upper_of(k1) == upper_of(k2),
    ensures
        spec_get(m, k1) == spec_get(m, k2),
        spec_get_bool(m, k1) == spec_get_bool(m, k2),
        spec_get_uint(m, k1, max) == spec_get_uint(m, k2, max),
        spec_get_sint(m, k1, min, max) == spec_get_sint(m, k2, min, max),
{
}

/// For every key present in the options, the locations hold an entry too,
/// and it names the file that contributed the key's current, post-merge
/// value: the last file, in search order, that defined the key.
pub proof fn lemma_location_follows_value(files: Seq<FileView>, k: Seq<char>)
    ensures
        merged_options(files).contains_key(k) <==> merged_locations(files).contains_key(k),
        merged_options(files).contains_key(k) ==> {
            let j = last_defining_file(files, k);
            &&& 0 <= j < files.len()
            &&& file_defines(files[j], k)
            &&& (forall|j2: int| j < j2 < files.len() ==> !file_defines(files[j2], k))
            &&& merged_locations(files)[k] == files[j].filename
            &&& merged_options(files)[k] == last_pair_value(files[j].pairs, k)
        },
{
    lemma_merge_files_pointwise(Map::empty(), Map::empty(), files, k);
}

/// The two merged tables always have the same domain.
pub proof fn lemma_options_locations_same_dom(files: Seq<FileView>)
    ensures
        merged_options(files).dom() == merged_locations(files).dom(),
{
    assert forall|k: Seq<char>|
        merged_options(files).dom().contains(k) <==> merged_locations(
            files,
        ).dom().contains(k) by {
        lemma_merge_files_pointwise(Map::empty(), Map::empty(), files, k);
    }
    assert(merged_options(files).dom() =~= merged_locations(files).dom());
}

/// A boolean query is absent uniformly: both when the key is unset and when
/// it is set to a value that, folded to lower case, is none of `yes`,
/// `true`, `no`, `false`.
pub proof fn lemma_absence_uniformity(m: Map<Seq<char>, Seq<char>>, k: Seq<char>)
    ensures
        spec_get(m, k) is None ==> spec_get_bool(m, k) is None,
        (spec_get(m, k) matches Some(v) && lower_of(v) != "yes"@ && lower_of(v) != "true"@
            && lower_of(v) != "no"@ && lower_of(v) != "false"@) ==> spec_get_bool(m, k) is None,
{
}

/// No two pairs fold to the same key.
pub open spec fn upper_distinct(ps: Seq<(Seq<char>, Seq<char>)>) -> bool {
    forall|i: int, j: int| 0 <= i < j < ps.len() ==> upper_of(ps[i].0) != upper_of(ps[j].0)
}

/// With no two pairs folding alike, any pair's value is the last value for
/// its folded key.
proof fn lemma_last_pair_value_unique(ps: Seq<(Seq<char>, Seq<char>)>, i: int)
    requires
        upper_distinct(ps),
        0 <= i < ps.len(),
    ensures
        pairs_define(ps, upper_of(ps[i].0)),
        last_pair_value(ps, upper_of(ps[i].0)) == ps[i].1,
    decreases ps.len(),
{
    if i == ps.len() - 1 {
    } else {
        assert(upper_distinct(ps.drop_last())) by {
            assert forall|x: int, y: int| 0 <= x < y < ps.drop_last().len() implies upper_of(
                ps.drop_last()[x].0,
            ) != upper_of(ps.drop_last()[y].0) by {
                assert(ps.drop_last()[x] == ps[x]);
                assert(ps.drop_last()[y] == ps[y]);
            }
        }
        assert(ps.drop_last()[i] == ps[i]);
        lemma_last_pair_value_unique(ps.drop_last(), i);
        assert(upper_of(ps.last().0) != upper_of(ps[i].0));
    }
}

/// Two pair sequences holding the same pairs, with no two pairs of either
/// folding alike, define the same keys with the same last values.
proof fn lemma_pairs_same_content(
    ps1: Seq<(Seq<char>, Seq<char>)>,
    ps2: Seq<(Seq<char>, Seq<char>)>,
    k: Seq<char>,
)
    requires
        forall|p: (Seq<char>, Seq<char>)| #[trigger] ps1.contains(p) <==> #[trigger] ps2.contains(
            p,
        ),
        upper_distinct(ps1),
        upper_distinct(ps2),
    ensures
        pairs_define(ps1, k) <==> pairs_define(ps2, k),
        pairs_define(ps1, k) ==> last_pair_value(ps1, k) == last_pair_value(ps2, k),
{
    if pairs_define(ps1, k) {
        let i = choose|i: int| 0 <= i < ps1.len() && upper_of(ps1[i].0) == k;
        let p = ps1[i];
        assert(ps1.contains(p));
        assert(ps2.contains(p));
        let j = choose|j: int| 0 <= j < ps2.len() && ps2[j] == p;
        assert(upper_of(ps2[j].0) == k);
        lemma_last_pair_value_unique(ps1, i);
        lemma_last_pair_value_unique(ps2, j);
    }
    if pairs_define(ps2, k) {
        let i = choose|i: int| 0 <= i < ps2.len() && upper_of(ps2[i].0) == k;
        let p = ps2[i];
        assert(ps2.contains(p));
        assert(ps1.contains(p));
        let j = choose|j: int| 0 <= j < ps1.len() && ps1[j] == p;
        assert(upper_of(ps1[j].0) == k);
    }
}

/// Construction is idempotent: two resolvers built from the same profile
/// and path see the same files with the same pairs, in the same order, and
/// then hold equal options and locations, whatever order each file's pairs
/// were handed over in — provided no single file holds two keys that fold
/// to the same upper-case form, for then the file's own iteration order
/// would decide which wins.
pub proof fn lemma_idempotent_construction(fs1: Seq<FileView>, fs2: Seq<FileView>)
    requires
        fs1.len() == fs2.len(),
        forall|i: int| 0 <= i < fs1.len() ==> #[trigger] fs1[i].filename == fs2[i].filename,
        forall|i: int, p: (Seq<char>, Seq<char>)|
            0 <= i < fs1.len() ==> (#[trigger] fs1[i].pairs.contains(p)
                <==> #[trigger] fs2[i].pairs.contains(p)),
        forall|i: int| 0 <= i < fs1.len() ==> #[trigger] upper_distinct(fs1[i].pairs),
        forall|i: int| 0 <= i < fs1.len() ==> #[trigger] upper_distinct(fs2[i].pairs),
    ensures
        merged_options(fs1) == merged_options(fs2),
        merged_locations(fs1) == merged_locations(fs2),
{
    assert_maps_equal!(merged_options(fs1), merged_options(fs2), k => {
        lemma_idempotent_pointwise(fs1, fs2, k);
    });
    assert_maps_equal!(merged_locations(fs1), merged_locations(fs2), k => {
        lemma_idempotent_pointwise(fs1, fs2, k);
    });
}

proof fn lemma_idempotent_pointwise(fs1: Seq<FileView>, fs2: Seq<FileView>, k: Seq<char>)
    requires
        fs1.len() == fs2.len(),
        forall|i: int| 0 <= i < fs1.len() ==> #[trigger] fs1[i].filename == fs2[i].filename,
        forall|i: int, p: (Seq<char>, Seq<char>)|
            0 <= i < fs1.len() ==> (#[trigger] fs1[i].pairs.contains(p)
                <==> #[trigger] fs2[i].pairs.contains(p)),
        forall|i: int| 0 <= i < fs1.len() ==> #[trigger] upper_distinct(fs1[i].pairs),
        forall|i: int| 0 <= i < fs1.len() ==> #[trigger] upper_distinct(fs2[i].pairs),
    ensures
        merged_options(fs1).contains_key(k) <==> merged_options(fs2).contains_key(k),
        merged_options(fs1).contains_key(k) ==> merged_options(fs1)[k] == merged_options(fs2)[k],
        merged_locations(fs1).contains_key(k) <==> merged_locations(fs2).contains_key(k),
        merged_locations(fs1).contains_key(k) ==> merged_locations(fs1)[k] == merged_locations(
            fs2,
        )[k],
{
    lemma_merge_files_pointwise(Map::empty(), Map::empty(), fs1, k);
    lemma_merge_files_pointwise(Map::empty(), Map::empty(), fs2, k);
    assert forall|i: int| 0 <= i < fs1.len() implies (file_defines(fs1[i], k) <==> file_defines(
        fs2[i],
        k,
    )) by {
        lemma_pairs_same_content(fs1[i].pairs, fs2[i].pairs, k);
    }
    if some_file_defines(fs1, k) {
        let j = choose|j: int| 0 <= j < fs1.len() && file_defines(fs1[j], k);
        assert(file_defines(fs2[j], k));
    }
    if some_file_defines(fs2, k) {
        let j = choose|j: int| 0 <= j < fs2.len() && file_defines(fs2[j], k);
        assert(file_defines(fs1[j], k));
    }
    if some_file_defines(fs1, k) && some_file_defines(fs2, k) {
        let j1 = last_defining_file(fs1, k);
        let j2 = last_defining_file(fs2, k);
        assert(file_defines(fs2[j1], k));
        assert(file_defines(fs1[j2], k));
        assert(j1 == j2);
        lemma_pairs_same_content(fs1[j1].pairs, fs2[j1].pairs, k);
    }
}

} // verus!
