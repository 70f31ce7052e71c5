//! The in-memory document store: an authoritative tree of projects and files,
//! grouped into document spaces, with one process-wide file id counter.
//!
//! File ids are allocated from the store's monotonically increasing counter,
//! so an id is unique across the entire store and is never reused.

use vstd::prelude::*;

verus! {

/// A single file: the unit of collaborative editing.
#[derive(Clone, Debug)]
pub struct File {
    pub id: i32,
    pub name: String,
    pub content: String,
}

#[verifier::ext_equal]
pub struct FileView {
    pub id: int,
    pub name: Seq<char>,
    pub content: Seq<char>,
}

impl View for File {
    type V = FileView;

    open spec fn view(&self) -> FileView {
        FileView { id: self.id as int, name: self.name@, content: self.content@ }
    }
}

/// A project: an ordered sequence of files under one name.
#[derive(Clone, Debug)]
pub struct Project {
    pub id: i32,
    pub name: String,
    pub files: Vec<File>,
}

#[verifier::ext_equal]
pub struct ProjectView {
    pub id: int,
    pub name: Seq<char>,
    pub files: Seq<FileView>,
}

impl View for Project {
    type V = ProjectView;

    open spec fn view(&self) -> ProjectView {
        ProjectView {
            id: self.id as int,
            name: self.name@,
            files: self.files@.map_values(|f: File| f@),
        }
    }
}

/// A document space: a string key mapping to an ordered sequence of projects.
/// Multiple spaces coexist; each is independent.
#[derive(Clone, Debug)]
pub struct Space {
    pub id: String,
    pub projects: Vec<Project>,
}

#[verifier::ext_equal]
pub struct SpaceView {
    pub id: Seq<char>,
    pub projects: Seq<ProjectView>,
}

impl View for Space {
    type V = SpaceView;

    open spec fn view(&self) -> SpaceView {
        SpaceView { id: self.id@, projects: self.projects@.map_values(|p: Project| p@) }
    }
}

/// The whole store, together with the next file id to hand out.
pub struct DocumentStore {
    spaces: Vec<Space>,
    next_file_id: i32,
}

#[verifier::ext_equal]
pub struct StoreView {
    pub spaces: Seq<SpaceView>,
    pub next_file_id: int,
}

impl View for DocumentStore {
    type V = StoreView;

    closed spec fn view(&self) -> StoreView {
        StoreView {
            spaces: self.spaces@.map_values(|s: Space| s@),
            next_file_id: self.next_file_id as int,
        }
    }
}

/// The file sitting at space index `s`, project index `p`, file index `f`.
pub open spec fn file_at(v: StoreView, s: int, p: int, f: int) -> FileView {
    v.spaces[s].projects[p].files[f]
}

/// Whether `(s, p, f)` addresses a file of the store.
pub open spec fn valid_idx(v: StoreView, s: int, p: int, f: int) -> bool {
    &&& 0 <= s < v.spaces.len()
    &&& 0 <= p < v.spaces[s].projects.len()
    &&& 0 <= f < v.spaces[s].projects[p].files.len()
}

/// No two distinct positions of the store hold the same file id.
pub open spec fn unique_file_ids(v: StoreView) -> bool {
    forall|s1: int, p1: int, f1: int, s2: int, p2: int, f2: int|
        valid_idx(v, s1, p1, f1) && valid_idx(v, s2, p2, f2) && #[trigger] file_at(
            v,
            s1,
            p1,
            f1,
        ).id == #[trigger] file_at(v, s2, p2, f2).id ==> s1 == s2 && p1 == p2 && f1 == f2
}

/// Every file id already handed out lies below the counter.
pub open spec fn ids_below_counter(v: StoreView) -> bool {
    forall|s: int, p: int, f: int|
        valid_idx(v, s, p, f) ==> #[trigger] file_at(v, s, p, f).id < v.next_file_id
}

/// Document space keys are unique.
pub open spec fn unique_space_ids(v: StoreView) -> bool {
    forall|i: int, j: int|
        0 <= i < v.spaces.len() && 0 <= j < v.spaces.len() && #[trigger] v.spaces[i].id
            == #[trigger] v.spaces[j].id ==> i == j
}

/// Project ids are unique within their containing document space.
pub open spec fn unique_project_ids(v: StoreView) -> bool {
    forall|s: int, i: int, j: int|
        0 <= s < v.spaces.len() && 0 <= i < v.spaces[s].projects.len()
            && 0 <= j < v.spaces[s].projects.len()
            && #[trigger] v.spaces[s].projects[i].id == #[trigger] v.spaces[s].projects[j].id
            ==> i == j
}

/// Well-formedness of the store: unique keys and ids, counter ahead of
/// every allocated id.
pub open spec fn store_wf(v: StoreView) -> bool {
    &&& unique_file_ids(v)
    &&& ids_below_counter(v)
    &&& unique_space_ids(v)
    &&& unique_project_ids(v)
    &&& 1 <= v.next_file_id
}

/// Some position of the store holds a file with id `fid`.
pub open spec fn has_file_id(v: StoreView, fid: int) -> bool {
    exists|s: int, p: int, f: int| valid_idx(v, s, p, f) && file_at(v, s, p, f).id == fid
}

/// The file value `fv` sits at some position of the store.
pub open spec fn store_contains_file(v: StoreView, fv: FileView) -> bool {
    exists|s: int, p: int, f: int| valid_idx(v, s, p, f) && file_at(v, s, p, f) == fv
}

/// Some space of the store carries the key `sid`.
pub open spec fn has_space(v: StoreView, sid: Seq<char>) -> bool {
    exists|i: int| 0 <= i < v.spaces.len() && v.spaces[i].id == sid
}

/// Some project with id `pid` sits in the space at index `s`.
pub open spec fn space_has_project(v: StoreView, s: int, pid: int) -> bool {
    exists|p: int| 0 <= p < v.spaces[s].projects.len() && v.spaces[s].projects[p].id == pid
}

/// A file can be placed: the addressed space and project both exist.
pub open spec fn can_add_file(v: StoreView, sid: Seq<char>, pid: int) -> bool {
    exists|i: int|
        0 <= i < v.spaces.len() && #[trigger] v.spaces[i].id == sid && space_has_project(v, i, pid)
}

/// What a file lookup returns: the file carrying id `fid` where one exists,
/// nothing where none does.
pub open spec fn get_file_spec(v: StoreView, fid: int, r: Option<FileView>) -> bool {
    match r {
        Some(f) => store_contains_file(v, f) && f.id == fid,
        None => !has_file_id(v, fid),
    }
}

/// How a save reshapes the store: every position keeps its file's id and
/// name, the file carrying `fid` — and no other — has its content replaced
/// by `c`, the counter stands still, and `ok` reports whether `fid` was
/// found at all.
pub open spec fn save_file_spec(v0: StoreView, v1: StoreView, fid: int, c: Seq<char>, ok: bool) -> bool {
    &&& ok == has_file_id(v0, fid)
    &&& v1.next_file_id == v0.next_file_id
    &&& v1.spaces.len() == v0.spaces.len()
    &&& forall|s: int|
        0 <= s < v0.spaces.len() ==> #[trigger] v1.spaces[s].id == v0.spaces[s].id
            && v1.spaces[s].projects.len() == v0.spaces[s].projects.len()
    &&& forall|s: int, p: int|
        0 <= s < v0.spaces.len() && 0 <= p < v0.spaces[s].projects.len()
            ==> (#[trigger] v1.spaces[s].projects[p]).id == v0.spaces[s].projects[p].id
            && v1.spaces[s].projects[p].name == v0.spaces[s].projects[p].name
            && v1.spaces[s].projects[p].files.len() == v0.spaces[s].projects[p].files.len()
    &&& forall|s: int, p: int, f: int|
        valid_idx(v0, s, p, f) ==> #[trigger] file_at(v1, s, p, f) == (if file_at(
            v0,
            s,
            p,
            f,
        ).id == fid {
            FileView {
                id: file_at(v0, s, p, f).id,
                name: file_at(v0, s, p, f).name,
                content: c,
            }
        } else {
            file_at(v0, s, p, f)
        })
}

impl DocumentStore {
    /// Validity carried by every store this module hands out.
    pub open spec fn wf(&self) -> bool {
        store_wf(self@)
    }

    /// An empty store; ids start at 1.
    pub fn new() -> (s: Self)
        ensures
            s.wf(),
            s@.spaces == Seq::<SpaceView>::empty(),
            s@.next_file_id == 1,
    {
        let s = DocumentStore { spaces: Vec::new(), next_file_id: 1 };
        proof {
            assert(s@.spaces =~= Seq::<SpaceView>::empty());
        }
        s
    }

    /// The index of the space keyed `sid`, if one exists.
    fn find_space_idx(&self, sid: &String) -> (r: Option<usize>)
        ensures
            match r {
                Some(i) => i < self@.spaces.len() && self@.spaces[i as int].id == sid@,
                None => !has_space(self@, sid@),
            },
    {
        let mut i: usize = 0;
        while i < self.spaces.len()
            invariant
                i <= self@.spaces.len(),
                self@.spaces.len() == self.spaces@.len(),
                forall|j: int| 0 <= j < i ==> #[trigger] self@.spaces[j].id != sid@,
            decreases self@.spaces.len() - i,
        {
            if self.spaces[i].id.eq(sid) {
                return Some(i);
            }
            i = i + 1;
        }
        None
    }

    /// Create an empty document space under the key `id`.
    ///
    /// Succeeds exactly when no space carries that key yet; on success the
    /// new space is appended empty, and nothing else changes.
    pub fn add_space(&mut self, id: String) -> (ok: bool)
        requires
            old(self).wf(),
        ensures
            final(self).wf(),
            ok == !has_space(old(self)@, id@),
            ok ==> final(self)@.spaces =~= old(self)@.spaces.push(
                SpaceView { id: id@, projects: Seq::<ProjectView>::empty() },
            ),
            ok ==> final(self)@.next_file_id == old(self)@.next_file_id,
            !ok ==> final(self)@ =~~= old(self)@,
    {
        match self.find_space_idx(&id) {
            Some(_) => false,
            None => {
                self.spaces.push(Space { id, projects: Vec::new() });
                proof {
                    let v0 = old(self)@;
                    let v1 = self@;
                    assert(v1.spaces =~~= v0.spaces.push(
                        SpaceView { id: id@, projects: Seq::<ProjectView>::empty() },
                    ));
                    assert forall|s: int, p: int, f: int| valid_idx(v1, s, p, f) implies valid_idx(
                        v0,
                        s,
                        p,
                        f,
                    ) && file_at(v1, s, p, f) == file_at(v0, s, p, f) by {
                        if s == v0.spaces.len() {
                            assert(v1.spaces[s].projects.len() == 0);
                        }
                    };
                    assert(store_wf(v1));
                }
                true
            },
        }
    }

    /// Add an empty project with id `project_id` and name `name` to the
    /// space keyed `space_id`.
    ///
    /// Succeeds exactly when that space exists and holds no project with
    /// that id yet; on success the project is appended to the space's
    /// sequence and nothing else changes.
    pub fn add_project(&mut self, space_id: &String, project_id: i32, name: String) -> (ok: bool)
        requires
            old(self).wf(),
        ensures
            final(self).wf(),
            ok == (exists|i: int|
                0 <= i < old(self)@.spaces.len() && #[trigger] old(self)@.spaces[i].id == space_id@
                    && !space_has_project(old(self)@, i, project_id as int)),
            ok ==> final(self)@.spaces.len() == old(self)@.spaces.len() && final(self)@.next_file_id == old(self)@.next_file_id,
            ok ==> forall|j: int|
                0 <= j < old(self)@.spaces.len() ==> (#[trigger] final(self)@.spaces[j]).id == old(self)@.spaces[j].id && final(self)@.spaces[j].projects == (if old(self)@.spaces[j].id
                    == space_id@ {
                    old(self)@.spaces[j].projects.push(
                        (ProjectView {
                            id: project_id as int,
                            name: name@,
                            files: Seq::<FileView>::empty(),
                        }),
                    )
                } else {
                    old(self)@.spaces[j].projects
                }),
            !ok ==> final(self)@ =~~= old(self)@,
    {
        let idx = match self.find_space_idx(space_id) {
            Some(i) => i,
            None => {
                return false;
            },
        };
        let mut p: usize = 0;
        while p < self.spaces[idx].projects.len()
            invariant
                old(self).wf(),
                *self == *old(self),
                idx < self@.spaces.len(),
                self@.spaces[idx as int].id == space_id@,
                self@.spaces.len() == self.spaces@.len(),
                p <= self.spaces@[idx as int].projects@.len(),
                forall|j: int|
                    0 <= j < p ==> #[trigger] self@.spaces[idx as int].projects[j].id
                        != project_id as int,
            decreases self.spaces@[idx as int].projects@.len() - p,
        {
            if self.spaces[idx].projects[p].id == project_id {
                proof {
                    let v0 = self@;
                    assert(v0.spaces[idx as int] == self.spaces@[idx as int]@);
                    assert(v0.spaces[idx as int].projects[p as int] == self.spaces@[idx as int].projects@[p as int]@);
                    assert(v0.spaces[idx as int].projects[p as int].id == project_id as int);
                    assert(space_has_project(v0, idx as int, project_id as int));
                    assert forall|i: int|
                        0 <= i < v0.spaces.len() && #[trigger] v0.spaces[i].id == space_id@
                            implies space_has_project(v0, i, project_id as int) by {
                        assert(unique_space_ids(v0));
                        assert(i == idx as int);
                    };
                }
                return false;
            }
            p = p + 1;
        }
        self.spaces[idx].projects.push(Project { id: project_id, name, files: Vec::new() });
        proof {
            let v0 = old(self)@;
            let v1 = self@;
            let i = idx as int;
            assert(v1.spaces =~~= v0.spaces.update(
                i,
                (SpaceView {
                    id: v0.spaces[i].id,
                    projects: v0.spaces[i].projects.push(
                        (ProjectView {
                            id: project_id as int,
                            name: name@,
                            files: Seq::<FileView>::empty(),
                        }),
                    ),
                }),
            ));
            assert forall|j: int| 0 <= j < v0.spaces.len() && j != i implies v0.spaces[j].id
                != space_id@ by {
                assert(unique_space_ids(v0));
            };
            assert forall|s: int, pp: int, f: int| valid_idx(v1, s, pp, f) implies valid_idx(
                v0,
                s,
                pp,
                f,
            ) && file_at(v1, s, pp, f) == file_at(v0, s, pp, f) by {
                if s == i && pp == v0.spaces[i].projects.len() {
                    assert(v1.spaces[s].projects[pp].files.len() == 0);
                }
            };
            assert(store_wf(v1));
        }
        true
    }

    /// The index of the project with id `project_id` inside the space at
    /// index `s`, if one exists.
    fn find_project_idx(&self, s: usize, project_id: i32) -> (r: Option<usize>)
        requires
            s < self@.spaces.len(),
        ensures
            match r {
                Some(p) => p < self@.spaces[s as int].projects.len()
                    && self@.spaces[s as int].projects[p as int].id == project_id as int,
                None => !space_has_project(self@, s as int, project_id as int),
            },
    {
        let mut p: usize = 0;
        while p < self.spaces[s].projects.len()
            invariant
                s < self@.spaces.len(),
                self@.spaces.len() == self.spaces@.len(),
                self@.spaces[s as int].projects.len() == self.spaces@[s as int].projects@.len(),
                p <= self.spaces@[s as int].projects@.len(),
                forall|j: int|
                    0 <= j < p ==> #[trigger] self@.spaces[s as int].projects[j].id
                        != project_id as int,
            decreases self.spaces@[s as int].projects@.len() - p,
        {
            if self.spaces[s].projects[p].id == project_id {
                proof {
                    assert(self@.spaces[s as int].projects[p as int]
                        == self.spaces@[s as int].projects@[p as int]@);
                }
                return Some(p);
            }
            p = p + 1;
        }
        None
    }

    /// Place a new file named `name` with content `content` into the project
    /// `project_id` of the space keyed `space_id`, allocating its id from
    /// the store-wide counter.
    ///
    /// Succeeds exactly when the space and project exist and the counter has
    /// room; the returned id equals the counter's old value, which exceeds
    /// every file id already in the store, so allocated ids are strictly
    /// increasing no matter which project or space receives them.
    pub fn add_file(
        &mut self,
        space_id: &String,
        project_id: i32,
        name: String,
        content: String,
    ) -> (r: Option<i32>)
        requires
            old(self).wf(),
        ensures
            final(self).wf(),
            r is Some <==> can_add_file(old(self)@, space_id@, project_id as int) && old(self)@.next_file_id < i32::MAX,
            r is Some ==> r->Some_0 as int == old(self)@.next_file_id && final(self)@.next_file_id
                == old(self)@.next_file_id + 1,
            r is Some ==> forall|s: int, p: int, f: int|
                valid_idx(old(self)@, s, p, f) ==> #[trigger] file_at(old(self)@, s, p, f).id
                    < r->Some_0 as int,
            r is Some ==> final(self)@.spaces.len() == old(self)@.spaces.len(),
            r is Some ==> forall|j: int|
                0 <= j < old(self)@.spaces.len() ==> (#[trigger] final(self)@.spaces[j]).id == old(self)@.spaces[j].id && final(self)@.spaces[j].projects.len() == old(self)@.spaces[j].projects.len(),
            r is Some ==> forall|j: int, q: int|
                0 <= j < old(self)@.spaces.len() && 0 <= q < old(self)@.spaces[j].projects.len()
                    ==> (#[trigger] final(self)@.spaces[j].projects[q]).id == old(self)@.spaces[j].projects[q].id && final(self)@.spaces[j].projects[q].name == old(self)@.spaces[j].projects[q].name && final(self)@.spaces[j].projects[q].files == (if old(self)@.spaces[j].id == space_id@ && old(self)@.spaces[j].projects[q].id
                    == project_id as int {
                    old(self)@.spaces[j].projects[q].files.push(
                        (FileView { id: old(self)@.next_file_id, name: name@, content: content@ }),
                    )
                } else {
                    old(self)@.spaces[j].projects[q].files
                }),
            r is None ==> final(self)@ =~~= old(self)@,
    {
        let idx = match self.find_space_idx(space_id) {
            Some(i) => i,
            None => {
                return None;
            },
        };
        let pidx = match self.find_project_idx(idx, project_id) {
            Some(p) => p,
            None => {
                proof {
                    let v0 = self@;
                    assert forall|i: int|
                        0 <= i < v0.spaces.len() && #[trigger] v0.spaces[i].id == space_id@
                            implies !space_has_project(v0, i, project_id as int) by {
                        assert(unique_space_ids(v0));
                        assert(i == idx as int);
                    };
                }
                return None;
            },
        };
        if self.next_file_id == i32::MAX {
            return None;
        }
        let id = self.next_file_id;
        self.next_file_id = self.next_file_id + 1;
        self.spaces[idx].projects[pidx].files.push(File { id, name, content });
        proof {
            let v0 = old(self)@;
            let v1 = self@;
            let i = idx as int;
            let pp = pidx as int;
            let nf = FileView { id: v0.next_file_id, name: name@, content: content@ };
            let oldlen = v0.spaces[i].projects[pp].files.len() as int;
            assert(can_add_file(v0, space_id@, project_id as int));
            assert(v1.spaces =~~= v0.spaces.update(
                i,
                (SpaceView {
                    id: v0.spaces[i].id,
                    projects: v0.spaces[i].projects.update(
                        pp,
                        (ProjectView {
                            id: v0.spaces[i].projects[pp].id,
                            name: v0.spaces[i].projects[pp].name,
                            files: v0.spaces[i].projects[pp].files.push(nf),
                        }),
                    ),
                }),
            ));
            assert forall|s: int, q: int, f: int|
                valid_idx(v1, s, q, f) && !(s == i && q == pp && f == oldlen) implies valid_idx(
                v0,
                s,
                q,
                f,
            ) && file_at(v1, s, q, f) == file_at(v0, s, q, f) by {};
            assert forall|j: int| 0 <= j < v0.spaces.len() && j != i implies v0.spaces[j].id
                != space_id@ by {
                assert(unique_space_ids(v0));
            };
            assert forall|q: int|
                0 <= q < v0.spaces[i].projects.len() && q != pp implies v0.spaces[i].projects[q].id
                != project_id as int by {
                assert(unique_project_ids(v0));
            };
            assert(valid_idx(v1, i, pp, oldlen));
            assert(file_at(v1, i, pp, oldlen) == nf);
            assert forall|s: int, q: int, f: int| valid_idx(v1, s, q, f) implies #[trigger] file_at(
                v1,
                s,
                q,
                f,
            ).id < v1.next_file_id by {
                if !(s == i && q == pp && f == oldlen) {
                    assert(file_at(v0, s, q, f).id < v0.next_file_id);
                }
            };
            assert forall|s1: int, p1: int, f1: int, s2: int, p2: int, f2: int|
                valid_idx(v1, s1, p1, f1) && valid_idx(v1, s2, p2, f2) && #[trigger] file_at(
                    v1,
                    s1,
                    p1,
                    f1,
                ).id == #[trigger] file_at(v1, s2, p2, f2).id implies s1 == s2 && p1 == p2 && f1
                == f2 by {
                let new1 = s1 == i && p1 == pp && f1 == oldlen;
                let new2 = s2 == i && p2 == pp && f2 == oldlen;
                if new1 && !new2 {
                    assert(file_at(v0, s2, p2, f2).id < v0.next_file_id);
                } else if !new1 && new2 {
                    assert(file_at(v0, s1, p1, f1).id < v0.next_file_id);
                } else if !new1 && !new2 {
                    assert(file_at(v0, s1, p1, f1).id == file_at(v0, s2, p2, f2).id);
                }
            };
            assert(store_wf(v1));
        }
        Some(id)
    }

    /// The position of the file carrying id `file_id`, scanning spaces,
    /// projects and files in order; ids are unique, so at most one position
    /// matches.
    fn find_file_pos(&self, file_id: i32) -> (r: Option<(usize, usize, usize)>)
        ensures
            match r {
                Some(pos) => valid_idx(self@, pos.0 as int, pos.1 as int, pos.2 as int) && file_at(
                    self@,
                    pos.0 as int,
                    pos.1 as int,
                    pos.2 as int,
                ).id == file_id as int,
                None => !has_file_id(self@, file_id as int),
            },
    {
        let ghost v = self@;
        let mut s: usize = 0;
        while s < self.spaces.len()
            invariant
                v == self@,
                s <= self.spaces@.len(),
                v.spaces.len() == self.spaces@.len(),
                forall|s2: int, p2: int, f2: int|
                    valid_idx(v, s2, p2, f2) && s2 < s ==> #[trigger] file_at(v, s2, p2, f2).id
                        != file_id as int,
            decreases self.spaces@.len() - s,
        {
            let mut p: usize = 0;
            while p < self.spaces[s].projects.len()
                invariant
                    v == self@,
                    s < self.spaces@.len(),
                    v.spaces.len() == self.spaces@.len(),
                    p <= self.spaces@[s as int].projects@.len(),
                    v.spaces[s as int].projects.len() == self.spaces@[s as int].projects@.len(),
                    forall|s2: int, p2: int, f2: int|
                        valid_idx(v, s2, p2, f2) && s2 < s ==> #[trigger] file_at(v, s2, p2, f2).id
                            != file_id as int,
                    forall|p2: int, f2: int|
                        valid_idx(v, s as int, p2, f2) && p2 < p ==> #[trigger] file_at(
                            v,
                            s as int,
                            p2,
                            f2,
                        ).id != file_id as int,
                decreases self.spaces@[s as int].projects@.len() - p,
            {
                let mut f: usize = 0;
                while f < self.spaces[s].projects[p].files.len()
                    invariant
                        v == self@,
                        s < self.spaces@.len(),
                        v.spaces.len() == self.spaces@.len(),
                        p < self.spaces@[s as int].projects@.len(),
                        v.spaces[s as int].projects.len() == self.spaces@[s as int].projects@.len(),
                        f <= self.spaces@[s as int].projects@[p as int].files@.len(),
                        v.spaces[s as int].projects[p as int].files.len() == self.spaces@[
                            s as int
                        ].projects@[p as int].files@.len(),
                        forall|f2: int|
                            0 <= f2 < f ==> #[trigger] file_at(v, s as int, p as int, f2).id
                                != file_id as int,
                    decreases self.spaces@[s as int].projects@[p as int].files@.len() - f,
                {
                    if self.spaces[s].projects[p].files[f].id == file_id {
                        proof {
                            assert(file_at(v, s as int, p as int, f as int) == self.spaces@[
                                s as int
                            ].projects@[p as int].files@[f as int]@);
                        }
                        return Some((s, p, f));
                    }
                    f = f + 1;
                }
                p = p + 1;
            }
            s = s + 1;
        }
        proof {
            assert forall|s2: int, p2: int, f2: int|
                valid_idx(v, s2, p2, f2) implies #[trigger] file_at(v, s2, p2, f2).id
                != file_id as int by {}
        }
        None
    }

    /// Look a file up by id across all projects in all spaces; a copy of the
    /// matching file comes back, or nothing when the id is absent.
    pub fn get_file(&self, file_id: i32) -> (r: Option<File>)
        ensures
            get_file_spec(
                self@,
                file_id as int,
                match r {
                    Some(f) => Some(f@),
                    None => None,
                },
            ),
    {
        match self.find_file_pos(file_id) {
            Some((s, p, f)) => {
                let fl = &self.spaces[s].projects[p].files[f];
                proof {
                    assert(file_at(self@, s as int, p as int, f as int) == self.spaces@[
                        s as int
                    ].projects@[p as int].files@[f as int]@);
                }
                Some(File { id: fl.id, name: fl.name.clone(), content: fl.content.clone() })
            },
            None => None,
        }
    }

    /// Replace the content of the file carrying id `file_id`, leaving its id
    /// and name — and every other file — untouched.  Reports whether the id
    /// was found; an absent id changes nothing.
    pub fn save_file(&mut self, file_id: i32, content: String) -> (ok: bool)
        requires
            old(self).wf(),
        ensures
            final(self).wf(),
            save_file_spec(old(self)@, final(self)@, file_id as int, content@, ok),
            !ok ==> final(self)@ =~~= old(self)@,
    {
        match self.find_file_pos(file_id) {
            Some((s, p, f)) => {
                self.spaces[s].projects[p].files[f].content = content;
                proof {
                    let v0 = old(self)@;
                    let v1 = self@;
                    let si = s as int;
                    let pi = p as int;
                    let fi = f as int;
                    assert(v1.spaces =~~= v0.spaces.update(
                        si,
                        (SpaceView {
                            id: v0.spaces[si].id,
                            projects: v0.spaces[si].projects.update(
                                pi,
                                (ProjectView {
                                    id: v0.spaces[si].projects[pi].id,
                                    name: v0.spaces[si].projects[pi].name,
                                    files: v0.spaces[si].projects[pi].files.update(
                                        fi,
                                        (FileView {
                                            id: file_at(v0, si, pi, fi).id,
                                            name: file_at(v0, si, pi, fi).name,
                                            content: content@,
                                        }),
                                    ),
                                }),
                            ),
                        }),
                    ));
                    assert forall|s2: int, p2: int, f2: int|
                        valid_idx(v0, s2, p2, f2) implies #[trigger] file_at(v1, s2, p2, f2) == (
                    if file_at(v0, s2, p2, f2).id == file_id as int {
                        FileView {
                            id: file_at(v0, s2, p2, f2).id,
                            name: file_at(v0, s2, p2, f2).name,
                            content: content@,
                        }
                    } else {
                        file_at(v0, s2, p2, f2)
                    }) by {
                        assert(unique_file_ids(v0));
                        if s2 == si && p2 == pi && f2 == fi {
                        } else {
                            assert(file_at(v0, s2, p2, f2).id != file_id as int);
                        }
                    };
                    assert(store_wf(v1));
                }
                true
            },
            None => false,
        }
    }

    /// A snapshot of the projects of the space keyed `space_id`: a deep
    /// copy, so later mutation of the store is never observed through it.
    pub fn list_projects(&self, space_id: &String) -> (r: Option<Vec<Project>>)
        ensures
            match r {
                Some(ps) => exists|i: int|
                    0 <= i < self@.spaces.len() && #[trigger] self@.spaces[i].id == space_id@
                        && ps@.map_values(|p: Project| p@) == self@.spaces[i].projects,
                None => !has_space(self@, space_id@),
            },
    {
        match self.find_space_idx(space_id) {
            Some(i) => {
                let ps = copy_projects(&self.spaces[i].projects);
                proof {
                    assert(ps@.map_values(|p: Project| p@) =~~= self@.spaces[i as int].projects);
                }
                Some(ps)
            },
            None => None,
        }
    }
}

/// Build the store every process starts from: one public document space
/// holding a demo website project of three files and a second small project
/// of two, with file ids 1 through 5 handed out by the store's counter.
pub fn create_initial_data() -> (s: DocumentStore)
    ensures
        s.wf(),
        s@.next_file_id == 6,
        s@.spaces.len() == 1,
        s@.spaces[0].id == "public_room"@,
        s@.spaces[0].projects.len() == 2,
        s@.spaces[0].projects[0].id == 1,
        s@.spaces[0].projects[0].name == "Demo Website"@,
        s@.spaces[0].projects[0].files.len() == 3,
        s@.spaces[0].projects[0].files[0] == (FileView {
            id: 1,
            name: "index.html"@,
            content:
                "<h1>Hello, World!</h1>\n<p>Edit this to see the live preview update.</p>\n<script src=\"script.js\"></script>"@,
        }),
        s@.spaces[0].projects[0].files[1] == (FileView {
            id: 2,
            name: "style.css"@,
            content: "h1 {\n  color: steelblue;\n  font-family: sans-serif;\n}"@,
        }),
        s@.spaces[0].projects[0].files[2] == (FileView {
            id: 3,
            name: "script.js"@,
            content: "console.log('Hello from the script!');\nalert('This is a test.');"@,
        }),
        s@.spaces[0].projects[1].id == 2,
        s@.spaces[0].projects[1].name == "Another Project"@,
        s@.spaces[0].projects[1].files.len() == 2,
        s@.spaces[0].projects[1].files[0] == (FileView {
            id: 4,
            name: "README.md"@,
            content: "# Another Project\n\nThis is a simple markdown file."@,
        }),
        s@.spaces[0].projects[1].files[1] == (FileView {
            id: 5,
            name: "data.json"@,
            content: "{\n  \"key\": \"value\",\n  \"is_test\": true\n}"@,
        }),
{
    let room = String::from_str("public_room");
    let mut s = DocumentStore::new();
    let ok0 = s.add_space(room.clone());
    proof {
        assert(ok0);
        assert(s@.spaces.len() == 1 && s@.spaces[0].id == room@);
    }
    let ok1 = s.add_project(&room, 1, String::from_str("Demo Website"));
    proof {
        assert(ok1);
        assert(s@.spaces.len() == 1 && s@.spaces[0].projects.len() == 1);
        assert(s@.spaces[0].projects[0].id == 1);
        assert(space_has_project(s@, 0, 1));
    }
    let r1 = s.add_file(
        &room,
        1,
        String::from_str("index.html"),
        String::from_str(
            "<h1>Hello, World!</h1>\n<p>Edit this to see the live preview update.</p>\n<script src=\"script.js\"></script>",
        ),
    );
    proof {
        assert(r1 is Some);
        assert(s@.spaces[0].projects[0].files.len() == 1);
    }
    let r2 = s.add_file(
        &room,
        1,
        String::from_str("style.css"),
        String::from_str("h1 {\n  color: steelblue;\n  font-family: sans-serif;\n}"),
    );
    proof {
        assert(r2 is Some);
        assert(s@.spaces[0].projects[0].files.len() == 2);
    }
    let r3 = s.add_file(
        &room,
        1,
        String::from_str("script.js"),
        String::from_str("console.log('Hello from the script!');\nalert('This is a test.');"),
    );
    proof {
        assert(r3 is Some);
        assert(s@.spaces[0].projects[0].files.len() == 3);
    }
    let ok2 = s.add_project(&room, 2, String::from_str("Another Project"));
    proof {
        assert(ok2);
        assert(s@.spaces[0].projects.len() == 2 && s@.spaces[0].projects[1].id == 2);
        assert(space_has_project(s@, 0, 2));
    }
    let r4 = s.add_file(
        &room,
        2,
        String::from_str("README.md"),
        String::from_str("# Another Project\n\nThis is a simple markdown file."),
    );
    proof {
        assert(r4 is Some);
        assert(s@.spaces[0].projects[1].files.len() == 1);
    }
    let r5 = s.add_file(
        &room,
        2,
        String::from_str("data.json"),
        String::from_str("{\n  \"key\": \"value\",\n  \"is_test\": true\n}"),
    );
    proof {
        assert(r5 is Some);
        assert(s@.spaces[0].projects[1].files.len() == 2);
    }
    s
}

/// A field-for-field copy of one file.
fn copy_file(f: &File) -> (r: File)
    ensures
        r@ == f@,
{
    File { id: f.id, name: f.name.clone(), content: f.content.clone() }
}

/// A deep copy of a sequence of files.
fn copy_files(v: &Vec<File>) -> (r: Vec<File>)
    ensures
        r@.map_values(|f: File| f@) =~~= v@.map_values(|f: File| f@),
{
    let mut r: Vec<File> = Vec::new();
    let mut i: usize = 0;
    while i < v.len()
        invariant
            i <= v@.len(),
            r@.len() == i,
            forall|j: int| 0 <= j < i ==> #[trigger] r@[j]@ == v@[j]@,
        decreases v@.len() - i,
    {
        r.push(copy_file(&v[i]));
        i = i + 1;
    }
    r
}

/// A deep copy of one project.
fn copy_project(p: &Project) -> (r: Project)
    ensures
        r@ == p@,
{
    let r = Project { id: p.id, name: p.name.clone(), files: copy_files(&p.files) };
    proof {
        assert(r@ =~~= p@);
    }
    r
}

/// A deep copy of a sequence of projects.
fn copy_projects(v: &Vec<Project>) -> (r: Vec<Project>)
    ensures
        r@.map_values(|p: Project| p@) =~~= v@.map_values(|p: Project| p@),
{
    let mut r: Vec<Project> = Vec::new();
    let mut i: usize = 0;
    while i < v.len()
        invariant
            i <= v@.len(),
            r@.len() == i,
            forall|j: int| 0 <= j < i ==> #[trigger] r@[j]@ == v@[j]@,
        decreases v@.len() - i,
    {
        r.push(copy_project(&v[i]));
        i = i + 1;
    }
    r
}

/// Law: in a well-formed store, file ids are globally unique — two
/// positions holding the same id are one and the same position, no matter
/// which project or document space either belongs to.
pub proof fn lemma_file_ids_globally_unique(
    v: StoreView,
    s1: int,
    p1: int,
    f1: int,
    s2: int,
    p2: int,
    f2: int,
)
    requires
        store_wf(v),
        valid_idx(v, s1, p1, f1),
        valid_idx(v, s2, p2, f2),
        file_at(v, s1, p1, f1).id == file_at(v, s2, p2, f2).id,
    ensures
        s1 == s2,
        p1 == p2,
        f1 == f2,
{
}

/// Law: every file id already present lies below the allocation counter, so
/// the id `add_file` hands out next is strictly greater than all of them —
/// allocation order is strictly increasing, independent of which project or
/// space receives the file.
pub proof fn lemma_next_id_exceeds_all(v: StoreView, s: int, p: int, f: int)
    requires
        store_wf(v),
        valid_idx(v, s, p, f),
    ensures
        file_at(v, s, p, f).id < v.next_file_id,
{
}

/// Law: a save immediately followed by a lookup of the same id returns
/// exactly the saved content, unchanged.
pub proof fn lemma_save_then_get(
    v0: StoreView,
    v1: StoreView,
    fid: int,
    c: Seq<char>,
    r: Option<FileView>,
)
    requires
        store_wf(v0),
        has_file_id(v0, fid),
        save_file_spec(v0, v1, fid, c, true),
        get_file_spec(v1, fid, r),
    ensures
        r is Some,
        r->Some_0.id == fid,
        r->Some_0.content == c,
{
    let (s, p, f) = choose|s: int, p: int, f: int|
        valid_idx(v0, s, p, f) && file_at(v0, s, p, f).id == fid;
    assert(valid_idx(v0, s, p, f) && file_at(v0, s, p, f).id == fid);
    assert(v1.spaces[s].id == v0.spaces[s].id);
    assert(v1.spaces[s].projects[p].id == v0.spaces[s].projects[p].id);
    assert(valid_idx(v1, s, p, f));
    assert(file_at(v1, s, p, f).id == fid && file_at(v1, s, p, f).content == c);
    assert(has_file_id(v1, fid));
    match r {
        Some(rf) => {
            let (s2, p2, f2) = choose|s2: int, p2: int, f2: int|
                valid_idx(v1, s2, p2, f2) && file_at(v1, s2, p2, f2) == rf;
            assert(valid_idx(v1, s2, p2, f2) && file_at(v1, s2, p2, f2) == rf);
            assert(v1.spaces[s2].id == v0.spaces[s2].id);
            assert(v1.spaces[s2].projects[p2].id == v0.spaces[s2].projects[p2].id);
            assert(valid_idx(v0, s2, p2, f2));
            assert(file_at(v1, s2, p2, f2).id == fid);
            assert(file_at(v0, s2, p2, f2).id == fid);
            assert(s2 == s && p2 == p && f2 == f);
        },
        None => {
            assert(false);
        },
    }
}

} // verus!
