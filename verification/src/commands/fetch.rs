//! What `fetch` decides: which queries the local directory already tracks.
use vstd::prelude::*;
use crate::id_set::{insert_id, strictly_increasing};
use crate::naming::{file_base, lemma_yaml_file_name_roundtrip, yaml_ext, yaml_file_id, yaml_file_query_id};

verus! {

/// Some file of the directory is the metadata file of query `id`.
pub open spec fn directory_tracks(names: Seq<String>, id: u64) -> bool {
    exists|i: int| 0 <= i < names.len() && yaml_file_id(#[trigger] names[i]@) == Some(id)
}

/// The ids of the queries whose `{id}-{slug}.yaml` files are among the
/// given file names, in increasing order and each once.
pub fn query_ids_from_file_names(names: &Vec<String>) -> (r: Vec<u64>)
    ensures
        strictly_increasing(r@),
        forall|id: u64| r@.contains(id) <==> directory_tracks(names@, id),
{
    let mut ids: Vec<u64> = Vec::new();
    let mut i: usize = 0;
    while i < names.len()
        invariant
            i <= names.len(),
            strictly_increasing(ids@),
            forall|id: u64| ids@.contains(id) <==> directory_tracks(names@.take(i as int), id),
        decreases names.len() - i,
    {
        let found = yaml_file_query_id(names[i].as_str());
        let ghost before = ids@;
        match found {
            Some(id) => {
                insert_id(&mut ids, id);
            },
            None => {},
        }
        proof {
            let pre = names@.take(i as int);
            let post = names@.take(i + 1);
            assert forall|id: u64| ids@.contains(id) <==> directory_tracks(post, id) by {
                if directory_tracks(post, id) {
                    let k = choose|k: int| 0 <= k < post.len() && yaml_file_id(#[trigger] post[k]@) == Some(id);
                    if k < i {
                        assert(pre[k] == post[k]);
                        assert(directory_tracks(pre, id));
                    }
                }
                if directory_tracks(pre, id) {
                    let k = choose|k: int| 0 <= k < pre.len() && yaml_file_id(#[trigger] pre[k]@) == Some(id);
                    assert(post[k] == pre[k]);
                }
                if found == Some(id) {
                    assert(post[i as int] == names@[i as int]);
                }
            }
        }
        i = i + 1;
    }
    assert(names@.take(i as int) =~= names@);
    ids
}

/// A query that was fetched stays tracked: once its metadata file
/// `{id}-{slug}.yaml` is among the directory's file names, the next fetch
/// finds its id there, whatever its name.
pub proof fn lemma_fetched_query_tracked(names: Seq<String>, i: int, id: u64, name: Seq<char>)
    requires
        0 <= i < names.len(),
        names[i]@ == file_base(id, name) + seq!['.'] + yaml_ext(),
    ensures
        directory_tracks(names, id),
{
    lemma_yaml_file_name_roundtrip(id, name);
    assert(yaml_file_id(names[i]@) == Some(id));
}


/// The queries a fetch works on.
#[derive(Debug)]
pub enum FetchPlan {
    /// Every query the user can see: no query is on disk and `--all` was not
    /// given.
    AllOfUser,
    /// Nothing: no query is on disk, but `--all` asked for those on disk.
    Nothing,
    /// These query ids, in their order.
    Ids(Vec<u64>),
}

/// The ids a fetch starts from: those asked for when there are any, else those
/// whose files the directory holds.
pub open spec fn fetch_ids(requested: Seq<u64>, known: Seq<u64>) -> Seq<u64> {
    if requested.len() > 0 {
        requested
    } else {
        known
    }
}

/// The plan fits the inputs: the starting ids when there are any; else
/// nothing with `--all`, and every query of the user without it.
pub open spec fn fetch_plan_fits(r: FetchPlan, requested: Seq<u64>, known: Seq<u64>, all: bool) -> bool {
    &&& fetch_ids(requested, known).len() > 0 ==> (r matches FetchPlan::Ids(v) && v@ == fetch_ids(
        requested,
        known,
    ))
    &&& fetch_ids(requested, known).len() == 0 ==> (if all {
        r is Nothing
    } else {
        r is AllOfUser
    })
}

/// Chooses what to fetch from the ids asked for, the ids whose files
/// the directory holds (`known`, read only when none were asked for) and the `--all` flag.
pub fn plan_fetch(requested: Vec<u64>, known: Vec<u64>, all: bool) -> (r: FetchPlan)
    ensures
        fetch_plan_fits(r, requested@, known@, all),
{
    let ids = if requested.len() > 0 {
        requested
    } else {
        known
    };
    if ids.len() > 0 {
        FetchPlan::Ids(ids)
    } else if all {
        FetchPlan::Nothing
    } else {
        FetchPlan::AllOfUser
    }
}


/// Ids asked for always win: whatever the directory holds, a fetch with
/// ids works on exactly those ids; only without ids does it turn to the
/// queries on disk.
pub proof fn lemma_requested_ids_win(requested: Seq<u64>, known: Seq<u64>)
    ensures
        requested.len() > 0 ==> fetch_ids(requested, known) == requested,
        requested.len() == 0 ==> fetch_ids(requested, known) == known,
{
}


/// What a fetch works on, from its inputs: the ids asked for when there are
/// any, whatever is on disk; else the ids on disk; and only when neither
/// exists, nothing with `--all` and every query of the user without it.
pub proof fn lemma_fetch_plan_choices(r: FetchPlan, requested: Seq<u64>, known: Seq<u64>, all: bool)
    requires
        fetch_plan_fits(r, requested, known, all),
    ensures
        requested.len() > 0 ==> (r matches FetchPlan::Ids(v) && v@ == requested),
        requested.len() == 0 && known.len() > 0 ==> (r matches FetchPlan::Ids(v) && v@ == known),
        requested.len() == 0 && known.len() == 0 && all ==> r is Nothing,
        requested.len() == 0 && known.len() == 0 && !all ==> r is AllOfUser,
{
}

} // verus!
