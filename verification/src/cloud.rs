//! Workspace checkout locations: which host has which commit checked out
//! where, per repository and workspace, in an upserting store.

use vstd::prelude::*;
use vstd::string::StringExecFns;

verus! {

/// One checkout of a workspace: the host, the commit checked out, where the
/// checkout and its shared data live, when it was seen, and whose it is.
#[derive(Clone)]
pub struct WorkspaceCheckoutLocation {
    pub hostname: String,
    pub commit: String,
    pub checkout_path: String,
    pub shared_path: String,
    pub timestamp: i64,
    pub unixname: String,
}

#[verifier::ext_equal]
pub ghost struct LocationView {
    pub hostname: Seq<char>,
    pub commit: Seq<char>,
    pub checkout_path: Seq<char>,
    pub shared_path: Seq<char>,
    pub timestamp: int,
    pub unixname: Seq<char>,
}

impl View for WorkspaceCheckoutLocation {
    type V = LocationView;

    open spec fn view(&self) -> LocationView {
        LocationView {
            hostname: self.hostname@,
            commit: self.commit@,
            checkout_path: self.checkout_path@,
            shared_path: self.shared_path@,
            timestamp: self.timestamp as int,
            unixname: self.unixname@,
        }
    }
}

impl WorkspaceCheckoutLocation {
    /// A field-for-field copy.
    pub fn duplicate(&self) -> (r: WorkspaceCheckoutLocation)
        ensures
            r@ == self@,
    {
        WorkspaceCheckoutLocation {
            hostname: self.hostname.clone(),
            commit: self.commit.clone(),
            checkout_path: self.checkout_path.clone(),
            shared_path: self.shared_path.clone(),
            timestamp: self.timestamp,
            unixname: self.unixname.clone(),
        }
    }
}

/// A row belongs to the given repository and workspace.
pub open spec fn row_in(
    row: (String, String, WorkspaceCheckoutLocation),
    repo: Seq<char>,
    ws: Seq<char>,
) -> bool {
    row.0@ == repo && row.1@ == ws
}

/// A row names the same checkout as the given key: same repository,
/// workspace and host.
pub open spec fn row_keyed(
    row: (String, String, WorkspaceCheckoutLocation),
    repo: Seq<char>,
    ws: Seq<char>,
    host: Seq<char>,
) -> bool {
    row.0@ == repo && row.1@ == ws && row.2.hostname@ == host
}

/// The locations of the rows of one repository and workspace, in insertion
/// order.
pub open spec fn matching_locs(
    rows: Seq<(String, String, WorkspaceCheckoutLocation)>,
    repo: Seq<char>,
    ws: Seq<char>,
) -> Seq<LocationView>
    decreases rows.len(),
{
    if rows.len() == 0 {
        Seq::empty()
    } else if row_in(rows.last(), repo, ws) {
        matching_locs(rows.drop_last(), repo, ws).push(rows.last().2@)
    } else {
        matching_locs(rows.drop_last(), repo, ws)
    }
}

/// The store of checkout locations: one row per (repository, workspace,
/// host), updated in place when the same checkout is inserted again.
pub struct CheckoutLocations {
    pub rows: Vec<(String, String, WorkspaceCheckoutLocation)>,
}

impl CheckoutLocations {
    pub fn new() -> (r: CheckoutLocations)
        ensures
            r.rows@ == Seq::<(String, String, WorkspaceCheckoutLocation)>::empty(),
    {
        CheckoutLocations { rows: Vec::new() }
    }

    /// Upserts one checkout location: the row of the same repository,
    /// workspace and host is replaced where one exists, and appended
    /// otherwise; a row is always written.
    pub fn insert(&mut self, reponame: String, workspace: String, data: WorkspaceCheckoutLocation)
        -> (r: bool)
        ensures
            r,
            ({
                let rows = old(self).rows@;
                if exists|i: int|
                    0 <= i < rows.len() && row_keyed(
                        #[trigger] rows[i],
                        reponame@,
                        workspace@,
                        data.hostname@,
                    ) {
                    exists|i: int|
                        {
                            &&& 0 <= i < rows.len()
                            &&& row_keyed(#[trigger] rows[i], reponame@, workspace@, data.hostname@)
                            &&& final(self).rows@.len() == rows.len()
                            &&& final(self).rows@[i].0@ == reponame@
                            &&& final(self).rows@[i].1@ == workspace@
                            &&& final(self).rows@[i].2@ == data@
                            &&& forall|j: int|
                                0 <= j < rows.len() && j != i ==> final(self).rows@[j] == rows[j]
                        }
                } else {
                    &&& final(self).rows@.len() == rows.len() + 1
                    &&& final(self).rows@.take(rows.len() as int) == rows
                    &&& final(self).rows@.last().0@ == reponame@
                    &&& final(self).rows@.last().1@ == workspace@
                    &&& final(self).rows@.last().2@ == data@
                }
            }),
    {
        let n = self.rows.len();
        let mut i: usize = 0;
        while i < n
            invariant
                n == self.rows@.len(),
                i <= n,
                self.rows@ == old(self).rows@,
                forall|j: int|
                    0 <= j < i ==> !row_keyed(
                        #[trigger] self.rows@[j],
                        reponame@,
                        workspace@,
                        data.hostname@,
                    ),
            decreases n - i,
        {
            let row = &self.rows[i];
            if row.0 == reponame && row.1 == workspace && row.2.hostname == data.hostname {
                self.rows.set(i, (reponame, workspace, data));
                return true;
            }
            i = i + 1;
        }
        proof {
            assert(self.rows@.push((reponame, workspace, data)).take(n as int) =~= self.rows@);
        }
        self.rows.push((reponame, workspace, data));
        true
    }

    /// The locations recorded for one repository and workspace, in
    /// insertion order.
    pub fn get(&self, reponame: String, workspace: String) -> (r: Vec<WorkspaceCheckoutLocation>)
        ensures
            crate::wire::seq_view(r@) == matching_locs(self.rows@, reponame@, workspace@),
    {
        let mut out: Vec<WorkspaceCheckoutLocation> = Vec::new();
        let mut i: usize = 0;
        proof {
            assert(self.rows@.take(0) =~= Seq::<(String, String, WorkspaceCheckoutLocation)>::empty());
            assert(crate::wire::seq_view(out@) =~= matching_locs(
                self.rows@.take(0),
                reponame@,
                workspace@,
            ));
        }
        while i < self.rows.len()
            invariant
                i <= self.rows@.len(),
                crate::wire::seq_view(out@) == matching_locs(
                    self.rows@.take(i as int),
                    reponame@,
                    workspace@,
                ),
            decreases self.rows@.len() - i,
        {
            let row = &self.rows[i];
            let ghost before = out@;
            proof {
                assert(self.rows@.take(i + 1).drop_last() =~= self.rows@.take(i as int));
                assert(self.rows@.take(i + 1).last() == self.rows@[i as int]);
            }
            if row.0 == reponame && row.1 == workspace {
                out.push(row.2.duplicate());
                proof {
                    assert(crate::wire::seq_view(out@) =~= crate::wire::seq_view(before).push(
                        self.rows@[i as int].2@,
                    ));
                }
            }
            i = i + 1;
        }
        proof {
            assert(self.rows@.take(self.rows@.len() as int) =~= self.rows@);
        }
        out
    }
}

} // verus!
