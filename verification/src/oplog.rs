//! The operation log: commits chained by hash, and the cursor that walks them.

use crate::digest::{is_sha, sha_hex, sha_of};
use crate::operation::{texts, Operation, OperationView, Sha};
use crate::text::{
    decimal, decimal_string, head, lemma_decimal_digits, lemma_decimal_injective,
    lemma_digits_plain, lemma_hex_plain, push_head,
};
use vstd::prelude::*;
use vstd::utf8::is_ascii_chars;

verus! {

/// The text that is hashed to the identity of a commit: its content hash, its parent and
/// its position in the log at the time it was appended, joined by `-`.
pub open spec fn id_text(content_hash: Seq<char>, parent: Seq<char>, nonce: nat) -> Seq<char> {
    content_hash + "-"@ + parent + "-"@ + decimal(nonce)
}

/// The identity of the commit that records `operation` under `parent` at position `nonce`.
pub open spec fn commit_id(operation: OperationView, parent: Seq<char>, nonce: nat) -> Seq<
    char,
> {
    sha_of(id_text(operation.content_hash(), parent, nonce))
}

/// One recorded operation. Nothing in a commit changes once it is in a log.
#[derive(Debug)]
pub struct Commit {
    pub operation: Operation,
    pub content_hash: Sha,
    pub parent: Sha,
    pub id: Sha,
}

/// What the contracts read of a [`Commit`].
pub struct CommitView {
    pub operation: OperationView,
    pub content_hash: Seq<char>,
    pub parent: Seq<char>,
    pub id: Seq<char>,
}

impl View for Commit {
    type V = CommitView;

    open spec fn view(&self) -> CommitView {
        CommitView {
            operation: self.operation@,
            content_hash: self.content_hash@,
            parent: self.parent@,
            id: self.id@,
        }
    }
}

impl CommitView {
    /// The commit that records `operation` under `parent` at position `nonce`.
    pub open spec fn record(operation: OperationView, parent: Seq<char>, nonce: nat) -> CommitView {
        CommitView {
            operation,
            content_hash: operation.content_hash(),
            parent,
            id: commit_id(operation, parent, nonce),
        }
    }

    /// The first commit of every log.
    pub open spec fn root() -> CommitView {
        CommitView::record(OperationView::Create { nonce: "Hello World"@ }, Seq::empty(), 0)
    }

    /// Whether the commit has no parent.
    pub open spec fn is_root(self) -> bool {
        self.parent.len() == 0
    }

    /// Whether the two hashes are those of the commit's content, parent and position
    /// `nonce`, and have the shape of identities.
    pub open spec fn sealed(self, nonce: nat) -> bool {
        &&& self == CommitView::record(self.operation, self.parent, nonce)
        &&& is_sha(self.id)
        &&& is_sha(self.content_hash)
    }

    /// The commit in one line: ten characters of its identity and its operation.
    pub open spec fn pretty_text(self) -> Seq<char> {
        head(self.id, 10) + ": "@ + self.operation.pretty_text()
    }

    /// The commit as a graph shows it: six characters of its identity and its operation.
    pub open spec fn shown(self) -> Seq<char> {
        head(self.id, 6) + ": "@ + self.operation.pretty_text()
    }
}

/// Computes the identity of the commit that records `operation` under `parent` at
/// position `nonce`.
pub fn id_from_op_and_parent(operation: &Operation, parent: &Sha, nonce: usize) -> (r: Sha)
    ensures
        r@ == commit_id(operation@, parent@, nonce as nat),
        is_sha(r@),
{
    let mut text = operation.hash();
    text.append("-");
    text.append(parent.as_str());
    text.append("-");
    let position = decimal_string(nonce as u64);
    text.append(position.as_str());
    sha_hex(text.as_str())
}

impl Clone for Commit {
    fn clone(&self) -> (r: Self)
        ensures
            r@ == self@,
    {
        Commit {
            operation: self.operation.clone(),
            content_hash: self.content_hash.clone(),
            parent: self.parent.clone(),
            id: self.id.clone(),
        }
    }
}

impl Commit {
    /// The root commit: it creates the log, has no parent and stands at position zero.
    pub fn init() -> (r: Commit)
        ensures
            r@ == CommitView::root(),
            r@.sealed(0),
    {
        let init_op = Operation::Create { nonce: String::from_str("Hello World") };
        let parent_sha = String::new();
        let id = id_from_op_and_parent(&init_op, &parent_sha, 0);
        let content_hash = init_op.hash();
        proof {
            assert(parent_sha@ =~= Seq::<char>::empty());
        }
        Commit { id, content_hash, operation: init_op, parent: parent_sha }
    }

    /// Whether [`Commit::pretty_print`] can print the commit.
    pub open spec fn printable(&self) -> bool {
        &&& is_ascii_chars(self@.id)
        &&& self@.id.len() >= 10
        &&& self@.operation.printable()
    }

    /// The commit in one line: the first ten characters of its identity, then its
    /// operation.
    pub fn pretty_print(&self) -> (r: String)
        requires
            self.printable(),
        ensures
            r@ == self@.pretty_text(),
    {
        let mut out = String::new();
        push_head(&mut out, &self.id, 10);
        out.append(": ");
        let op = self.operation.pretty_print();
        out.append(op.as_str());
        proof {
            assert(out@ =~= self@.pretty_text());
        }
        out
    }

    /// The commit as a graph shows it: the first six characters of its identity, then
    /// its operation.
    pub fn to_string(&self) -> (r: String)
        requires
            self.printable(),
        ensures
            r@ == self@.shown(),
    {
        let mut out = String::new();
        push_head(&mut out, &self.id, 6);
        out.append(": ");
        let op = self.operation.pretty_print();
        out.append(op.as_str());
        proof {
            assert(out@ =~= self@.shown());
        }
        out
    }
}

/// Whether some commit of `log` has the identity `sha`.
pub open spec fn knows(log: Seq<CommitView>, sha: Seq<char>) -> bool {
    exists|i: int| 0 <= i < log.len() && (#[trigger] log[i]).id == sha
}

/// Whether `i` is the place of the first commit of `log` with the identity `sha`.
pub open spec fn first_at(log: Seq<CommitView>, sha: Seq<char>, i: int) -> bool {
    &&& 0 <= i < log.len()
    &&& log[i].id == sha
    &&& forall|j: int| 0 <= j < i ==> (#[trigger] log[j]).id != sha
}

/// The place of the first commit of `log` with the identity `sha`.
pub open spec fn place_of(log: Seq<CommitView>, sha: Seq<char>) -> int {
    choose|i: int| first_at(log, sha, i)
}

/// Whether every commit of `log` carries the hashes of its content, parent and position,
/// and every parent is empty or the identity of an earlier commit.
pub open spec fn chained(log: Seq<CommitView>) -> bool {
    forall|i: int|
        0 <= i < log.len() ==> {
            &&& (#[trigger] log[i]).sealed(i as nat)
            &&& (log[i].is_root() || knows(log.subrange(0, i), log[i].parent))
        }
}

/// The first place of an identity is one place only.
pub proof fn lemma_place(log: Seq<CommitView>, sha: Seq<char>, i: int)
    requires
        first_at(log, sha, i),
    ensures
        place_of(log, sha) == i,
        knows(log, sha),
{
    let p = place_of(log, sha);
    assert(first_at(log, sha, p));
    if p < i {
        assert(log[p].id != sha);
    } else if i < p {
        assert(log[i].id != sha);
    }
}

/// An identity that a log knows has a first place in it.
pub proof fn lemma_known_place(log: Seq<CommitView>, sha: Seq<char>)
    requires
        knows(log, sha),
    ensures
        first_at(log, sha, place_of(log, sha)),
    decreases log.len(),
{
    let i = choose|i: int| 0 <= i < log.len() && (#[trigger] log[i]).id == sha;
    let shorter = log.drop_last();
    if i < log.len() - 1 {
        assert(shorter[i] == log[i]);
        lemma_known_place(shorter, sha);
        let p = place_of(shorter, sha);
        assert(first_at(shorter, sha, p));
        assert(shorter[p] == log[p]);
        assert forall|j: int| 0 <= j < p implies (#[trigger] log[j]).id != sha by {
            assert(shorter[j] == log[j]);
        }
        assert(first_at(log, sha, p));
    } else if knows(shorter, sha) {
        lemma_known_place(shorter, sha);
        let p = place_of(shorter, sha);
        assert(first_at(shorter, sha, p));
        assert(shorter[p] == log[p]);
        assert forall|j: int| 0 <= j < p implies (#[trigger] log[j]).id != sha by {
            assert(shorter[j] == log[j]);
        }
        assert(first_at(log, sha, p));
    } else {
        assert forall|j: int| 0 <= j < i implies (#[trigger] log[j]).id != sha by {
            assert(shorter[j] == log[j]);
        }
        assert(first_at(log, sha, i));
    }
}

/// A chained log stays chained when a sealed commit under a known parent is added.
pub proof fn lemma_chained_push(log: Seq<CommitView>, commit: CommitView)
    requires
        chained(log),
        commit.sealed(log.len()),
        commit.is_root() || knows(log, commit.parent),
    ensures
        chained(log.push(commit)),
        forall|sha: Seq<char>| knows(log, sha) ==> knows(log.push(commit), sha),
        knows(log.push(commit), commit.id),
{
    let next = log.push(commit);
    assert forall|i: int| 0 <= i < next.len() implies {
        &&& (#[trigger] next[i]).sealed(i as nat)
        &&& (next[i].is_root() || knows(next.subrange(0, i), next[i].parent))
    } by {
        if i < log.len() {
            assert(next[i] == log[i]);
            assert(next.subrange(0, i) =~= log.subrange(0, i));
        } else {
            assert(next.subrange(0, i) =~= log);
        }
    }
    assert forall|sha: Seq<char>| knows(log, sha) implies knows(next, sha) by {
        let i = choose|i: int| 0 <= i < log.len() && (#[trigger] log[i]).id == sha;
        assert(next[i] == log[i]);
    }
    assert(next[log.len() as int].id == commit.id);
}

/// The append-only sequence of commits.
#[derive(Debug)]
pub struct OpLog {
    commits: Vec<Commit>,
}

/// The views of `commits`, in order.
pub open spec fn views(commits: Seq<Commit>) -> Seq<CommitView> {
    Seq::new(commits.len(), |i: int| commits[i]@)
}

impl View for OpLog {
    type V = Seq<CommitView>;

    closed spec fn view(&self) -> Seq<CommitView> {
        views(self.commits@)
    }
}

impl Clone for OpLog {
    fn clone(&self) -> (r: Self)
        ensures
            r@ == self@,
    {
        let mut commits: Vec<Commit> = Vec::new();
        let mut i: usize = 0;
        while i < self.commits.len()
            invariant
                i <= self.commits.len(),
                commits@.len() == i,
                views(commits@) == views(self.commits@).subrange(0, i as int),
            decreases self.commits.len() - i,
        {
            let ghost before = commits@;
            commits.push(self.commits[i].clone());
            proof {
                let now = views(commits@);
                let goal = views(self.commits@).subrange(0, i + 1);
                assert forall|j: int| 0 <= j < now.len() implies now[j] == goal[j] by {
                    if j < i {
                        assert(commits@[j] == before[j]);
                        assert(views(before)[j] == views(self.commits@).subrange(0, i as int)[j]);
                    }
                }
                assert(now =~= goal);
            }
            i = i + 1;
        }
        proof {
            assert(views(self.commits@).subrange(0, i as int) =~= views(self.commits@));
        }
        OpLog { commits }
    }
}

impl OpLog {
    /// Every commit carries the hashes of its content, parent and position, and every
    /// parent is empty or names an earlier commit.
    pub open spec fn wf(&self) -> bool {
        chained(self@)
    }

    /// A log without commits.
    pub fn new() -> (r: OpLog)
        ensures
            r@ == Seq::<CommitView>::empty(),
            r.wf(),
    {
        let r = OpLog { commits: Vec::new() };
        proof {
            assert(r@ =~= Seq::<CommitView>::empty());
        }
        r
    }

    /// Appends the root commit.
    pub fn init(&mut self)
        requires
            old(self)@.len() == 0,
        ensures
            final(self)@ == seq![CommitView::root()],
            final(self).wf(),
    {
        let creation_commit = Commit::init();
        self.commits.push(creation_commit);
        proof {
            assert(self@ =~= seq![CommitView::root()]);
            assert(self@.subrange(0, 0) =~= Seq::<CommitView>::empty());
        }
    }

    /// Appends the commit that records `operation` under `parent` and returns it. Its
    /// position in the log goes into its identity.
    pub fn append(&mut self, parent: &Sha, operation: Operation) -> (r: Commit)
        requires
            old(self).wf(),
            parent@.len() == 0 || knows(old(self)@, parent@),
        ensures
            r@ == CommitView::record(operation@, parent@, old(self)@.len()),
            r@.sealed(old(self)@.len()),
            final(self)@ == old(self)@.push(r@),
            final(self).wf(),
    {
        let op_hash = operation.hash();
        let parent = parent.clone();
        let new_commit = Commit {
            id: id_from_op_and_parent(&operation, &parent, self.commits.len()),
            operation,
            content_hash: op_hash,
            parent,
        };
        let copy = new_commit.clone();
        self.commits.push(copy);
        proof {
            assert(self@ =~= old(self)@.push(new_commit@));
            lemma_chained_push(old(self)@, new_commit@);
        }
        new_commit
    }

    /// The commit appended last, if there is one.
    pub fn last(&self) -> (r: Option<Commit>)
        ensures
            match r {
                Some(c) => self@.len() > 0 && c@ == self@.last(),
                None => self@.len() == 0,
            },
    {
        let n = self.commits.len();
        if n == 0 {
            None
        } else {
            Some(self.commits[n - 1].clone())
        }
    }

    /// The number of commits.
    pub fn get_length(&self) -> (r: usize)
        ensures
            r == self@.len(),
    {
        self.commits.len()
    }

    /// The commit at position `i`.
    pub fn get(&self, i: usize) -> (r: &Commit)
        requires
            i < self@.len(),
        ensures
            r@ == self@[i as int],
    {
        &self.commits[i]
    }

    /// Copies of the commits, in the order of the log.
    pub fn commits(&self) -> (r: Vec<Commit>)
        ensures
            views(r@) == self@,
    {
        let copy = self.clone();
        copy.commits
    }

    /// The log of `commits`, if they are chained: each carries the hashes of its content,
    /// its parent and its position, and names no parent but an earlier commit. A commit
    /// that was changed, or moved, or whose ancestor was, is found out.
    pub fn restore(commits: Vec<Commit>) -> (r: Option<OpLog>)
        ensures
            match r {
                Some(log) => log@ == views(commits@) && log.wf(),
                None => !chained(views(commits@)),
            },
    {
        let log = OpLog { commits };
        let mut i: usize = 0;
        while i < log.commits.len()
            invariant
                i <= log.commits@.len(),
                log@ == views(commits@),
                chained(log@.subrange(0, i as int)),
            decreases log.commits@.len() - i,
        {
            let commit = &log.commits[i];
            let content_hash = commit.operation.hash();
            let id = id_from_op_and_parent(&commit.operation, &commit.parent, i);
            let sealed = commit.content_hash == content_hash && commit.id == id;
            let orphan = commit.parent.as_str().unicode_len() == 0;
            let found = log.find(&commit.parent);
            let linked = orphan || match found {
                Some(p) => p < i,
                None => false,
            };
            proof {
                let part = log@.subrange(0, i as int);
                assert(log@.subrange(0, i + 1) =~= part.push(commit@));
                if sealed && linked {
                    if !orphan {
                        let p = found->Some_0 as int;
                        assert(part[p] == log@[p]);
                    }
                    lemma_chained_push(part, commit@);
                } else if chained(log@) {
                    assert(log@[i as int].sealed(i as nat));
                    assert(knows(part, commit@.parent));
                    let j = choose|j: int|
                        0 <= j < part.len() && (#[trigger] part[j]).id == commit@.parent;
                    assert(part[j] == log@[j]);
                    assert(false);
                }
            }
            if !(sealed && linked) {
                return None;
            }
            i = i + 1;
        }
        proof {
            assert(log@.subrange(0, i as int) =~= log@);
        }
        Some(log)
    }

    /// Whether every operation of the log can be printed.
    pub fn is_printable(&self) -> (r: bool)
        ensures
            r == all_printable(self@),
    {
        let mut i: usize = 0;
        while i < self.commits.len()
            invariant
                i <= self.commits@.len(),
                forall|j: int| 0 <= j < i ==> (#[trigger] self@[j]).operation.printable(),
            decreases self.commits@.len() - i,
        {
            if !self.commits[i].operation.is_printable() {
                proof {
                    assert(!self@[i as int].operation.printable());
                }
                return false;
            }
            i = i + 1;
        }
        true
    }

    /// The position of the first commit with the identity `sha`, if there is one.
    pub fn find(&self, sha: &Sha) -> (r: Option<usize>)
        ensures
            match r {
                Some(i) => first_at(self@, sha@, i as int),
                None => !knows(self@, sha@),
            },
    {
        let mut i: usize = 0;
        while i < self.commits.len()
            invariant
                i <= self.commits.len(),
                forall|j: int| 0 <= j < i ==> (#[trigger] self@[j]).id != sha@,
            decreases self.commits.len() - i,
        {
            if self.commits[i].id == *sha {
                return Some(i);
            }
            i = i + 1;
        }
        None
    }
}

/// The places, in ascending order, of the commits after place `i` and before place `n`
/// whose parent is the commit at place `i`.
pub open spec fn kids_upto(log: Seq<CommitView>, i: int, n: int) -> Seq<int>
    decreases n,
{
    if n <= i + 1 || n <= 0 {
        Seq::empty()
    } else if log[n - 1].parent == log[i].id {
        kids_upto(log, i, n - 1).push(n - 1)
    } else {
        kids_upto(log, i, n - 1)
    }
}

/// The places of the children of the commit at place `i`, in the order of the log.
pub open spec fn kids_of(log: Seq<CommitView>, i: int) -> Seq<int> {
    kids_upto(log, i, log.len() as int)
}

/// The identities of the commits at `places`.
pub open spec fn ids_at(log: Seq<CommitView>, places: Seq<int>) -> Seq<Seq<char>> {
    Seq::new(places.len(), |j: int| log[places[j]].id)
}

/// The lines that draw the commit at place `i` and its descendants. A commit with one
/// child is followed by that child; one with two children by a fork, the first child
/// behind a bar, and the second child; of one with more, the children are not drawn.
pub open spec fn visit_lines(log: Seq<CommitView>, i: int, prefix: Seq<char>) -> Seq<Seq<char>>
    decreases log.len() - i,
{
    if 0 <= i < log.len() {
        let line = prefix + "* "@ + log[i].shown();
        let kids = kids_of(log, i);
        if kids.len() == 1 && i < kids[0] < log.len() {
            seq![line] + visit_lines(log, kids[0], prefix)
        } else if kids.len() == 2 && i < kids[0] < log.len() && i < kids[1] < log.len() {
            seq![line, prefix + "|\\"@] + visit_lines(log, kids[0], "| "@ + prefix) + visit_lines(
                log,
                kids[1],
                prefix,
            )
        } else {
            seq![line]
        }
    } else {
        Seq::empty()
    }
}

/// Whether every operation of `log` can be printed.
pub open spec fn all_printable(log: Seq<CommitView>) -> bool {
    forall|i: int| 0 <= i < log.len() ==> (#[trigger] log[i]).operation.printable()
}

/// The message for an identity that the log does not know.
pub open spec fn not_found(sha: Seq<char>) -> Seq<char> {
    "SHA "@ + sha + " not found in oplog"@
}

/// A commit and the identities of its children, as a graph of the log shows them.
#[derive(Debug)]
pub struct CommitNode {
    pub commit: Sha,
    pub children: Vec<Sha>,
}

impl CommitNode {
    /// The identity of the commit.
    pub fn to_string(&self) -> (r: String)
        ensures
            r@ == self.commit@,
    {
        self.commit.clone()
    }
}

/// A log and the cursor: the identity of the commit at the tip of the active branch.
#[derive(Debug)]
pub struct EvolutionLog {
    pub cursor: Sha,
    pub oplog: OpLog,
}

impl EvolutionLog {
    /// The log is chained, has its root, and the cursor names one of its commits.
    pub open spec fn wf(&self) -> bool {
        &&& self.oplog.wf()
        &&& self.oplog@.len() > 0
        &&& knows(self.oplog@, self.cursor@)
    }

    /// What a cherry-pick of `sha` leaves of the log `log` under the cursor `cursor`: the
    /// operation of the first commit with that identity is recorded again, and if it
    /// creates an entity, an alias from `sha` to the new commit follows.
    pub open spec fn picked(log: Seq<CommitView>, cursor: Seq<char>, sha: Seq<char>) -> Seq<
        CommitView,
    > {
        let source = log[place_of(log, sha)].operation;
        let copy = CommitView::record(source, cursor, log.len());
        if source.is_create() {
            log.push(copy).push(
                CommitView::record(
                    OperationView::Alias { original: sha, new: copy.id },
                    copy.id,
                    log.len() + 1,
                ),
            )
        } else {
            log.push(copy)
        }
    }

    /// The log of `commits` with the cursor on the commit `cursor`, if the commits are
    /// chained and `cursor` names one of them.
    pub fn restore(cursor: Sha, commits: Vec<Commit>) -> (r: Option<EvolutionLog>)
        ensures
            match r {
                Some(log) => log.wf() && log.cursor@ == cursor@ && log.oplog@ == views(commits@),
                None => !(chained(views(commits@)) && knows(views(commits@), cursor@)),
            },
    {
        match OpLog::restore(commits) {
            Some(oplog) => {
                match oplog.find(&cursor) {
                    Some(_) => Some(EvolutionLog { cursor, oplog }),
                    None => None,
                }
            },
            None => None,
        }
    }

    /// A log that holds its root commit, with the cursor on it.
    pub fn new() -> (r: EvolutionLog)
        ensures
            r.wf(),
            r.oplog@ == seq![CommitView::root()],
            r.cursor@ == CommitView::root().id,
    {
        let mut ol = OpLog::new();
        ol.init();
        let root = ol.get(0);
        let cursor = root.id.clone();
        EvolutionLog { cursor, oplog: ol }
    }

    /// Appends `operation` under the cursor, moves the cursor to the new commit and
    /// returns its identity.
    pub fn append(&mut self, operation: Operation) -> (r: Sha)
        requires
            old(self).wf(),
        ensures
            final(self).wf(),
            final(self).oplog@ == old(self).oplog@.push(
                CommitView::record(operation@, old(self).cursor@, old(self).oplog@.len()),
            ),
            final(self).cursor@ == commit_id(operation@, old(self).cursor@, old(self).oplog@.len()),
            r@ == final(self).cursor@,
            is_sha(r@),
    {
        let commit = self.oplog.append(&self.cursor, operation);
        proof {
            lemma_chained_push(old(self).oplog@, commit@);
        }
        self.cursor = commit.id;
        self.cursor.clone()
    }

    /// Every commit in one line, in the order of the log.
    pub fn pretty_print(&self) -> (r: Vec<String>)
        requires
            self.oplog.wf(),
            all_printable(self.oplog@),
        ensures
            r@.len() == self.oplog@.len(),
            forall|i: int|
                0 <= i < r@.len() ==> (#[trigger] r@[i])@ == self.oplog@[i].pretty_text(),
    {
        let mut lines: Vec<String> = Vec::new();
        let mut i: usize = 0;
        while i < self.oplog.get_length()
            invariant
                i <= self.oplog@.len(),
                self.oplog.wf(),
                all_printable(self.oplog@),
                lines@.len() == i,
                forall|j: int|
                    0 <= j < i ==> (#[trigger] lines@[j])@ == self.oplog@[j].pretty_text(),
            decreases self.oplog@.len() - i,
        {
            let commit = self.oplog.get(i);
            proof {
                assert(self.oplog@[i as int].sealed(i as nat));
                assert(self.oplog@[i as int].operation.printable());
                lemma_hex_plain(commit@.id);
            }
            lines.push(commit.pretty_print());
            i = i + 1;
        }
        lines
    }

    /// The places of the children of the commit at place `i`.
    fn kids(&self, i: usize) -> (r: Vec<usize>)
        requires
            i < self.oplog@.len(),
        ensures
            r@.len() == kids_of(self.oplog@, i as int).len(),
            forall|j: int| 0 <= j < r@.len() ==> (#[trigger] r@[j]) as int == kids_of(
                self.oplog@,
                i as int,
            )[j],
            forall|j: int| 0 <= j < r@.len() ==> i < (#[trigger] r@[j]) < self.oplog@.len(),
    {
        let n = self.oplog.get_length();
        let parent = self.oplog.get(i);
        let mut out: Vec<usize> = Vec::new();
        let mut k: usize = i + 1;
        while k < n
            invariant
                i < k <= n,
                n == self.oplog@.len(),
                parent@ == self.oplog@[i as int],
                out@.len() == kids_upto(self.oplog@, i as int, k as int).len(),
                forall|j: int| 0 <= j < out@.len() ==> (#[trigger] out@[j]) as int == kids_upto(
                    self.oplog@,
                    i as int,
                    k as int,
                )[j],
                forall|j: int| 0 <= j < out@.len() ==> i < (#[trigger] out@[j]) < k,
            decreases n - k,
        {
            if self.oplog.get(k).parent == parent.id {
                out.push(k);
            }
            k = k + 1;
        }
        out
    }

    /// The root of the log with the identities of its children.
    pub fn to_tree(&self) -> (r: CommitNode)
        requires
            self.wf(),
        ensures
            r.commit@ == self.oplog@[0].id,
            texts(r.children@) == ids_at(self.oplog@, kids_of(self.oplog@, 0)),
    {
        let kids = self.kids(0);
        let mut children: Vec<Sha> = Vec::new();
        let mut j: usize = 0;
        while j < kids.len()
            invariant
                j <= kids@.len(),
                children@.len() == j,
                kids@.len() == kids_of(self.oplog@, 0).len(),
                forall|m: int| 0 <= m < kids@.len() ==> (#[trigger] kids@[m]) as int == kids_of(
                    self.oplog@,
                    0,
                )[m],
                forall|m: int|
                    0 <= m < kids@.len() ==> 0 < (#[trigger] kids@[m]) < self.oplog@.len(),
                forall|m: int|
                    0 <= m < j ==> (#[trigger] children@[m])@ == self.oplog@[kids_of(
                        self.oplog@,
                        0,
                    )[m]].id,
            decreases kids@.len() - j,
        {
            let k = kids[j];
            children.push(self.oplog.get(k).id.clone());
            j = j + 1;
        }
        proof {
            assert(texts(children@) =~= ids_at(
                self.oplog@,
                kids_of(self.oplog@, 0),
            ));
        }
        CommitNode { commit: self.oplog.get(0).id.clone(), children }
    }

    /// Appends to `out` the lines that draw the commit at place `i` and its descendants.
    fn visit(&self, i: usize, prefix: &String, out: &mut Vec<String>)
        requires
            self.oplog.wf(),
            all_printable(self.oplog@),
            i < self.oplog@.len(),
        ensures
            texts(final(out)@) == texts(old(out)@)
                + visit_lines(self.oplog@, i as int, prefix@),
        decreases self.oplog@.len() - i,
    {
        let commit = self.oplog.get(i);
        proof {
            assert(self.oplog@[i as int].sealed(i as nat));
            assert(self.oplog@[i as int].operation.printable());
            lemma_hex_plain(commit@.id);
        }
        let mut line = prefix.clone();
        line.append("* ");
        let shown = commit.to_string();
        line.append(shown.as_str());
        let ghost start = texts(out@);
        let ghost first = prefix@ + "* "@ + self.oplog@[i as int].shown();
        out.push(line);
        proof {
            assert(texts(out@) =~= start + seq![first]);
        }
        let kids = self.kids(i);
        if kids.len() == 1 {
            self.visit(kids[0], prefix, out);
            proof {
                assert(texts(out@) =~= start + visit_lines(
                    self.oplog@,
                    i as int,
                    prefix@,
                ));
            }
        } else if kids.len() == 2 {
            let mut fork = prefix.clone();
            fork.append("|\\");
            out.push(fork);
            proof {
                assert(texts(out@) =~= start + seq![first, prefix@ + "|\\"@]);
            }
            let mut inner = String::from_str("| ");
            inner.append(prefix.as_str());
            self.visit(kids[0], &inner, out);
            self.visit(kids[1], prefix, out);
            proof {
                assert(texts(out@) =~= start + visit_lines(
                    self.oplog@,
                    i as int,
                    prefix@,
                ));
            }
        } else {
            proof {
                assert(texts(out@) =~= start + visit_lines(
                    self.oplog@,
                    i as int,
                    prefix@,
                ));
            }
        }
    }

    /// The graph of the log as lines of text: the heading `Root:`, then the root commit
    /// and its descendants.
    pub fn git_log(&self) -> (r: Vec<String>)
        requires
            self.wf(),
            all_printable(self.oplog@),
        ensures
            texts(r@) == seq!["Root:"@] + visit_lines(
                self.oplog@,
                0,
                Seq::empty(),
            ),
    {
        let mut out: Vec<String> = Vec::new();
        out.push(String::from_str("Root:"));
        let prefix = String::new();
        proof {
            assert(texts(out@) =~= seq!["Root:"@]);
        }
        self.visit(0, &prefix, &mut out);
        out
    }

    /// Moves the cursor to the commit `sha`, if the log has it. The log itself is never
    /// changed by a checkout.
    pub fn checkout(&mut self, sha: Sha) -> (r: Result<String, String>)
        requires
            old(self).wf(),
        ensures
            final(self).wf(),
            final(self).oplog@ == old(self).oplog@,
            match r {
                Ok(s) => knows(old(self).oplog@, sha@) && s@ == sha@ && final(self).cursor@
                    == sha@,
                Err(m) => !knows(old(self).oplog@, sha@) && m@ == not_found(sha@)
                    && final(self).cursor@ == old(self).cursor@,
            },
    {
        match self.oplog.find(&sha) {
            Some(_) => {
                self.cursor = sha;
                Ok(self.cursor.clone())
            },
            None => {
                let mut message = String::from_str("SHA ");
                message.append(sha.as_str());
                message.append(" not found in oplog");
                Err(message)
            },
        }
    }

    /// Records the operation of the commit `sha` again under the cursor. If the operation
    /// creates an entity, an alias from `sha` to the new commit follows, so that what
    /// addressed the old entity can be led to the new one. Returns the identity of the
    /// new commit that records the operation; the cursor stands on the last commit
    /// appended, which is the alias where there is one.
    pub fn cherry_pick(&mut self, sha: Sha) -> (r: Result<String, String>)
        requires
            old(self).wf(),
        ensures
            final(self).wf(),
            match r {
                Ok(s) => {
                    &&& knows(old(self).oplog@, sha@)
                    &&& final(self).oplog@ == EvolutionLog::picked(
                        old(self).oplog@,
                        old(self).cursor@,
                        sha@,
                    )
                    &&& final(self).cursor@ == final(self).oplog@.last().id
                    &&& s@ == final(self).oplog@[old(self).oplog@.len() as int].id
                    &&& s@ == commit_id(
                        old(self).oplog@[place_of(old(self).oplog@, sha@)].operation,
                        old(self).cursor@,
                        old(self).oplog@.len(),
                    )
                },
                Err(m) => {
                    &&& !knows(old(self).oplog@, sha@)
                    &&& m@ == not_found(sha@)
                    &&& final(self).oplog@ == old(self).oplog@
                    &&& final(self).cursor@ == old(self).cursor@
                },
            },
    {
        match self.oplog.find(&sha) {
            Some(i) => {
                proof {
                    lemma_place(self.oplog@, sha@, i as int);
                }
                let new_operation = self.oplog.get(i).operation.clone();
                let create = new_operation.is_create();
                let new_commit_id = self.append(new_operation);
                if create {
                    self.append(Operation::Alias { original: sha, new: new_commit_id.clone() });
                }
                Ok(new_commit_id)
            },
            None => {
                let mut message = String::from_str("SHA ");
                message.append(sha.as_str());
                message.append(" not found in oplog");
                Err(message)
            },
        }
    }
}

/// How an identity text is laid out: the hash, a dash, the parent, a dash, the position.
proof fn lemma_id_text_layout(content_hash: Seq<char>, parent: Seq<char>, nonce: nat)
    ensures
        id_text(content_hash, parent, nonce).len() == content_hash.len() + parent.len() + decimal(
            nonce,
        ).len() + 2,
        forall|k: int|
            0 <= k < content_hash.len() ==> id_text(content_hash, parent, nonce)[k]
                == content_hash[k],
        forall|k: int|
            0 <= k < parent.len() ==> id_text(content_hash, parent, nonce)[content_hash.len() + 1
                + k] == parent[k],
        id_text(content_hash, parent, nonce)[(content_hash.len() + 1 + parent.len()) as int]
            == '-',
        forall|k: int|
            0 <= k < decimal(nonce).len() ==> id_text(content_hash, parent, nonce)[
                content_hash.len() + 2 + parent.len() + k] == decimal(nonce)[k],
{
    reveal_strlit("-");
}

/// The identity of a commit is the hash of a text that tells its three sources apart:
/// two identity texts are equal only if the content hashes, the parents and the
/// positions are. So an identity is a function of all three, and no two of them are
/// mixed up before hashing. The content hashes are taken to have the shape of
/// identities, which every hash that the library computes has.
pub proof fn law_identity_sources(
    hash_a: Seq<char>,
    parent_a: Seq<char>,
    nonce_a: nat,
    hash_b: Seq<char>,
    parent_b: Seq<char>,
    nonce_b: nat,
)
    requires
        is_sha(hash_a),
        is_sha(hash_b),
        id_text(hash_a, parent_a, nonce_a) == id_text(hash_b, parent_b, nonce_b),
    ensures
        hash_a == hash_b,
        parent_a == parent_b,
        nonce_a == nonce_b,
{
    let ta = id_text(hash_a, parent_a, nonce_a);
    let tb = id_text(hash_b, parent_b, nonce_b);
    let da = decimal(nonce_a);
    let db = decimal(nonce_b);
    lemma_id_text_layout(hash_a, parent_a, nonce_a);
    lemma_id_text_layout(hash_b, parent_b, nonce_b);
    lemma_decimal_digits(nonce_a);
    lemma_decimal_digits(nonce_b);
    lemma_digits_plain(da);
    lemma_digits_plain(db);
    assert(hash_a =~= hash_b) by {
        assert forall|k: int| 0 <= k < 64 implies hash_a[k] == hash_b[k] by {
            assert(ta[k] == hash_a[k]);
            assert(tb[k] == hash_b[k]);
        }
    }
    if da.len() < db.len() {
        let j = parent_a.len() - parent_b.len() - 1;
        assert(tb[66 + parent_b.len() + j] == db[j]);
        assert(db.contains(db[j]));
        assert(false);
    }
    if db.len() < da.len() {
        let j = parent_b.len() - parent_a.len() - 1;
        assert(ta[66 + parent_a.len() + j] == da[j]);
        assert(da.contains(da[j]));
        assert(false);
    }
    assert(parent_a =~= parent_b) by {
        assert forall|k: int| 0 <= k < parent_a.len() implies parent_a[k] == parent_b[k] by {
            assert(ta[65 + k] == parent_a[k]);
            assert(tb[65 + k] == parent_b[k]);
        }
    }
    assert(da =~= db) by {
        assert forall|k: int| 0 <= k < da.len() implies da[k] == db[k] by {
            assert(ta[66 + parent_a.len() + k] == da[k]);
            assert(tb[66 + parent_b.len() + k] == db[k]);
        }
    }
    lemma_decimal_injective(nonce_a, nonce_b);
}

/// Two commits that differ in their content hash, their parent or their position are
/// hashed from different texts. So the same operation appended twice under the same
/// parent is hashed from two texts, which differ in the position. That the identities
/// then differ rests on SHA-256 and is not claimed.
pub proof fn law_identity_texts_differ(
    hash_a: Seq<char>,
    parent_a: Seq<char>,
    nonce_a: nat,
    hash_b: Seq<char>,
    parent_b: Seq<char>,
    nonce_b: nat,
)
    requires
        is_sha(hash_a),
        is_sha(hash_b),
        hash_a != hash_b || parent_a != parent_b || nonce_a != nonce_b,
    ensures
        id_text(hash_a, parent_a, nonce_a) != id_text(hash_b, parent_b, nonce_b),
{
    if id_text(hash_a, parent_a, nonce_a) == id_text(hash_b, parent_b, nonce_b) {
        law_identity_sources(hash_a, parent_a, nonce_a, hash_b, parent_b, nonce_b);
    }
}

/// The identity of a commit is determined by its operation, its parent and its position:
/// the same three give the same identity, whatever log they are recorded in.
pub proof fn law_identity_determined(
    operation_a: OperationView,
    parent_a: Seq<char>,
    nonce_a: nat,
    operation_b: OperationView,
    parent_b: Seq<char>,
    nonce_b: nat,
)
    requires
        operation_a == operation_b,
        parent_a == parent_b,
        nonce_a == nonce_b,
    ensures
        CommitView::record(operation_a, parent_a, nonce_a) == CommitView::record(
            operation_b,
            parent_b,
            nonce_b,
        ),
        commit_id(operation_a, parent_a, nonce_a) == commit_id(operation_b, parent_b, nonce_b),
{
}

/// In a log every commit but a root has a parent that the log holds, and the parent was
/// appended before it.
pub proof fn law_parent_chain(log: OpLog, i: int)
    requires
        log.wf(),
        0 <= i < log@.len(),
        !log@[i].is_root(),
    ensures
        knows(log@, log@[i].parent),
        0 <= place_of(log@, log@[i].parent) < i,
{
    let parent = log@[i].parent;
    let before = log@.subrange(0, i);
    assert(knows(before, parent));
    lemma_known_place(before, parent);
    let p = place_of(before, parent);
    assert(first_at(before, parent, p));
    assert(before[p] == log@[p]);
    assert forall|j: int| 0 <= j < p implies (#[trigger] log@[j]).id != parent by {
        assert(before[j] == log@[j]);
    }
    assert(first_at(log@, parent, p));
    lemma_place(log@, parent, p);
}

} // verus!
