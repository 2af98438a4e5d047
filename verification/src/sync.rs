use vstd::prelude::*;
use vstd::string::StringExecFns;

verus! {

/// The processing state of one synchronized record; later states
/// take precedence when server and client disagree.
#[derive(PartialEq, Eq, Structural, Clone, Copy, Debug)]
pub enum Status {
    New,
    Later,
    Ignored,
    Finished,
    Treated,
}

impl Status {
    /// The precedence of a status: the order the merge compares by.
    pub open spec fn rank_spec(self) -> int {
        match self {
            Status::New => 0,
            Status::Later => 1,
            Status::Ignored => 2,
            Status::Finished => 3,
            Status::Treated => 4,
        }
    }

    pub fn rank(&self) -> (r: u8)
        ensures
            r as int == self.rank_spec(),
    {
        match self {
            Status::New => 0,
            Status::Later => 1,
            Status::Ignored => 2,
            Status::Finished => 3,
            Status::Treated => 4,
        }
    }
}

/// One record's synchronization state: when the client last changed
/// it, when the server last changed it, its status, and whether the
/// client holds unpushed changes.
#[derive(PartialEq, Eq, Structural, Clone, Copy, Debug)]
pub struct SyncData {
    pub local_update_time: u64,
    pub server_update_time: u64,
    pub status: Status,
    pub dirty: bool,
}

impl Default for SyncData {
    fn default() -> (r: SyncData)
        ensures
            r == (SyncData {
                local_update_time: 0,
                server_update_time: 0,
                status: Status::New,
                dirty: false,
            }),
    {
        SyncData {
            local_update_time: 0,
            server_update_time: 0,
            status: Status::New,
            dirty: false,
        }
    }
}

impl SyncData {
    /// Takes another record's times and status; the dirty flag keeps
    /// its value.
    pub fn copy(&mut self, other: &SyncData)
        ensures
            final(self).local_update_time == other.local_update_time,
            final(self).server_update_time == other.server_update_time,
            final(self).status == other.status,
            final(self).dirty == old(self).dirty,
    {
        self.local_update_time = other.local_update_time;
        self.server_update_time = other.server_update_time;
        self.status = other.status;
    }

    /// Stamps both times with the server's clock.
    pub fn update_time(&mut self, server_update_time: u64)
        ensures
            final(self).local_update_time == server_update_time,
            final(self).server_update_time == server_update_time,
            final(self).status == old(self).status,
            final(self).dirty == old(self).dirty,
    {
        self.local_update_time = server_update_time;
        self.server_update_time = server_update_time;
    }
}

/// What one incoming record becomes against what the server holds:
/// a dirty record on an unchanged server line is re-stamped; a dirty
/// record on a changed server line keeps whichever side has the
/// higher status (the server's copy, or the client's re-stamped); a
/// clean record follows the server whenever the server changed.  The
/// dirty flag always clears.
pub open spec fn merge_rule(n: SyncData, e: Option<SyncData>, now: u64) -> SyncData {
    match e {
        None => SyncData { dirty: false, ..n },
        Some(ex) => {
            if n.dirty {
                if n.server_update_time == ex.server_update_time {
                    SyncData {
                        local_update_time: now,
                        server_update_time: now,
                        status: n.status,
                        dirty: false,
                    }
                } else if n.status.rank_spec() < ex.status.rank_spec() {
                    SyncData {
                        local_update_time: ex.local_update_time,
                        server_update_time: ex.server_update_time,
                        status: ex.status,
                        dirty: false,
                    }
                } else {
                    SyncData {
                        local_update_time: now,
                        server_update_time: now,
                        status: n.status,
                        dirty: false,
                    }
                }
            } else {
                if n.server_update_time != ex.server_update_time {
                    SyncData {
                        local_update_time: ex.local_update_time,
                        server_update_time: ex.server_update_time,
                        status: ex.status,
                        dirty: false,
                    }
                } else {
                    SyncData { dirty: false, ..n }
                }
            }
        },
    }
}

/// The views of a record list's entries.
pub open spec fn sync_views(s: Seq<(String, SyncData)>) -> Seq<(Seq<char>, SyncData)> {
    s.map_values(|p: (String, SyncData)| (p.0@, p.1))
}

/// First-match lookup by record id.
pub open spec fn sync_lookup(ex: Seq<(Seq<char>, SyncData)>, id: Seq<char>) -> Option<SyncData>
    decreases ex.len(),
{
    if ex.len() == 0 {
        None
    } else if ex[0].0 == id {
        Some(ex[0].1)
    } else {
        sync_lookup(ex.skip(1), id)
    }
}

proof fn lemma_sync_lookup_found(ex: Seq<(Seq<char>, SyncData)>, i: int, id: Seq<char>)
    requires
        0 <= i < ex.len(),
        ex[i].0 == id,
        forall|j: int| #![trigger ex[j]] 0 <= j < i ==> ex[j].0 != id,
    ensures
        sync_lookup(ex, id) == Some(ex[i].1),
    decreases i,
{
    if i > 0 {
        assert forall|j: int| 0 <= j < i - 1 implies #[trigger] ex.skip(1)[j].0 != id by {
            assert(ex.skip(1)[j] == ex[j + 1]);
        }
        assert(ex.skip(1)[i - 1] == ex[i]);
        lemma_sync_lookup_found(ex.skip(1), i - 1, id);
    }
}

proof fn lemma_sync_lookup_absent(ex: Seq<(Seq<char>, SyncData)>, id: Seq<char>)
    requires
        forall|j: int| #![trigger ex[j]] 0 <= j < ex.len() ==> ex[j].0 != id,
    ensures
        sync_lookup(ex, id) is None,
    decreases ex.len(),
{
    if ex.len() > 0 {
        assert forall|j: int| 0 <= j < ex.skip(1).len() implies #[trigger] ex.skip(1)[j].0
            != id by {
            assert(ex.skip(1)[j] == ex[j + 1]);
        }
        lemma_sync_lookup_absent(ex.skip(1), id);
    }
}

/// Finds the server's record for an id.
fn sync_find(existing: &Vec<(String, SyncData)>, id: &String) -> (r: Option<SyncData>)
    ensures
        r == sync_lookup(sync_views(existing@), id@),
{
    let ghost ex = sync_views(existing@);
    let mut i: usize = 0;
    while i < existing.len()
        invariant
            0 <= i <= existing@.len(),
            ex == sync_views(existing@),
            forall|j: int| #![trigger ex[j]] 0 <= j < i ==> ex[j].0 != id@,
        decreases existing@.len() - i,
    {
        if existing[i].0 == *id {
            proof {
                assert(ex[i as int].0 == id@);
                lemma_sync_lookup_found(ex, i as int, id@);
            }
            return Some(existing[i].1);
        }
        i += 1;
    }
    proof {
        lemma_sync_lookup_absent(ex, id@);
    }
    None
}

/// Merges the server's record list into the client's: every incoming
/// record becomes what the merge rule makes of it against the
/// server's record of the same id, and every record comes out clean.
/// Ids and their order are kept.
pub fn merge(
    existing_sync_data_list: &Vec<(String, SyncData)>,
    new_sync_data_list: &mut Vec<(String, SyncData)>,
    server_update_time: u64,
)
    ensures
        final(new_sync_data_list)@.len() == old(new_sync_data_list)@.len(),
        forall|i: int|
            #![trigger final(new_sync_data_list)@[i]]
            0 <= i < old(new_sync_data_list)@.len() ==> final(new_sync_data_list)@[i].0@ == old(
                new_sync_data_list,
            )@[i].0@ && final(new_sync_data_list)@[i].1 == merge_rule(
                old(new_sync_data_list)@[i].1,
                sync_lookup(sync_views(existing_sync_data_list@), old(new_sync_data_list)@[i].0@),
                server_update_time,
            ),
{
    let mut out: Vec<(String, SyncData)> = Vec::new();
    let mut i: usize = 0;
    while i < new_sync_data_list.len()
        invariant
            0 <= i <= new_sync_data_list@.len(),
            new_sync_data_list@ == old(new_sync_data_list)@,
            out@.len() == i,
            forall|j: int|
                #![trigger out@[j]]
                0 <= j < i ==> out@[j].0@ == new_sync_data_list@[j].0@ && out@[j].1 == merge_rule(
                    new_sync_data_list@[j].1,
                    sync_lookup(sync_views(existing_sync_data_list@), new_sync_data_list@[j].0@),
                    server_update_time,
                ),
        decreases new_sync_data_list@.len() - i,
    {
        let id = new_sync_data_list[i].0.clone();
        let mut data = new_sync_data_list[i].1;
        match sync_find(existing_sync_data_list, &id) {
            None => {
                data.dirty = false;
            },
            Some(ex) => {
                if data.dirty {
                    if data.server_update_time == ex.server_update_time {
                        data.update_time(server_update_time);
                    } else if data.status.rank() < ex.status.rank() {
                        data.copy(&ex);
                    } else {
                        data.update_time(server_update_time);
                    }
                    data.dirty = false;
                } else {
                    if data.server_update_time != ex.server_update_time {
                        data.copy(&ex);
                    }
                    data.dirty = false;
                }
            },
        }
        out.push((id, data));
        i += 1;
    }
    *new_sync_data_list = out;
}

/// The server side of one sync exchange, the storage aside: the
/// incoming list merged against the stored one, ready to be saved
/// and returned to the client.
pub fn set_data(
    existing_sync_data_list: &Vec<(String, SyncData)>,
    sync_data_list: Vec<(String, SyncData)>,
    server_update_time: u64,
) -> (r: Vec<(String, SyncData)>)
    ensures
        r@.len() == sync_data_list@.len(),
        forall|i: int|
            #![trigger r@[i]]
            0 <= i < sync_data_list@.len() ==> r@[i].0@ == sync_data_list@[i].0@ && r@[i].1
                == merge_rule(
                sync_data_list@[i].1,
                sync_lookup(sync_views(existing_sync_data_list@), sync_data_list@[i].0@),
                server_update_time,
            ),
{
    let mut l = sync_data_list;
    merge(existing_sync_data_list, &mut l, server_update_time);
    l
}

/// Where a team's service data lives, relative to the data root.
pub fn get_path(team: &str, opendata_service: &str) -> (r: String)
    ensures
        r@ == "data/"@ + team@ + "/"@ + opendata_service@ + ".json"@,
{
    let mut r = String::new();
    r.append("data/");
    r.append(team);
    r.append("/");
    r.append(opendata_service);
    r.append(".json");
    proof {
        assert(r@ =~= "data/"@ + team@ + "/"@ + opendata_service@ + ".json"@);
    }
    r
}

} // verus!
