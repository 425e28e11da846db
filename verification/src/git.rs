//! The commit history synthesizer.
//!
//! A bound repository is modelled by the first-parent chain of `HEAD`:
//! `rooted` says the chain ends in a parentless root commit, and `lineage`
//! lists the non-root commits of the chain oldest first, each as its
//! timestamp together with the bytes of its marker file.  Synthesis
//! replays a grid by appending, for every cell in index order, one commit
//! per unit of intensity, timestamped at the cell's midnight.
use vstd::prelude::*;

verus! {

use crate::config::GridError;
use crate::consts::{DEFAULT_AUTHOR, DEFAULT_EMAIL, DEFAULT_MESSAGE, MARKER_FILE};
use crate::date::midnight_epoch_seconds;
use crate::state::{State, StateMap};

#[verifier::external_type_specification]
#[verifier::external_body]
pub struct ExRepository(git2::Repository);

#[verifier::external_type_specification]
#[verifier::external_body]
pub struct ExGitError(git2::Error);

/// The non-root commits on the first-parent chain of the repository's
/// `HEAD`, oldest first: each commit's timestamp (seconds since the epoch)
/// and the bytes of the marker file in its tree.
pub uninterp spec fn lineage(r: git2::Repository) -> Seq<(i64, Seq<u8>)>;

/// Whether the first-parent chain of `HEAD` exists, has no commit with
/// more than one parent, and ends in a parentless root commit.
pub uninterp spec fn rooted(r: git2::Repository) -> bool;

/// Relies on git2's `Repository::init`: creates a repository at the path
/// (directories included), or reopens one already there.
#[verifier::external_body]
fn repo_init(path: &str) -> (r: Result<git2::Repository, git2::Error>) {
    git2::Repository::init(path)
}

/// Relies on git2's `Repository::open`: opens the repository at the path.
#[verifier::external_body]
fn repo_open(path: &str) -> (r: Result<git2::Repository, git2::Error>) {
    git2::Repository::open(path)
}

/// Relies on git2's `Signature::new`, `Index::write_tree`, and
/// `Repository::commit` with no parents: writes a commit with an empty
/// tree and no parent at the epoch-zero timestamp and points `HEAD` at
/// it.  git2 refuses the reference update when `HEAD` already has a
/// commit, so success means `HEAD` now sits on a parentless root and the
/// chain above it is empty; on failure `HEAD` has not moved.
#[verifier::external_body]
fn root_commit(
    repo: &mut git2::Repository,
    author: &str,
    email: &str,
    message: &str,
) -> (r: Result<(), git2::Error>)
    ensures
        r is Ok ==> rooted(*final(repo)) && lineage(*final(repo)) == Seq::<(i64, Seq<u8>)>::empty(),
        r is Err ==> rooted(*final(repo)) == rooted(*old(repo)) && lineage(*final(repo))
            == lineage(*old(repo)),
{
    let sig = git2::Signature::new(author, email, &git2::Time::new(0, 0))?;
    let oid = repo.index()?.write_tree()?;
    let tree = repo.find_tree(oid)?;
    repo.commit(Some("HEAD"), &sig, &sig, message, &tree, &[])?;
    Ok(())
}

/// Relies on git2: reads the commit `HEAD` points at and returns its id
/// as raw bytes.  The id depends on the repository's state, so nothing
/// more is claimed of it.
#[verifier::external_body]
fn head_commit_id(repo: &git2::Repository) -> (r: Result<Vec<u8>, git2::Error>) {
    Ok(repo.head()?.peel_to_commit()?.id().as_bytes().to_vec())
}

/// Relies on git2's `blob`, `treebuilder`, `find_tree`, `Signature::new`
/// and `Repository::commit` with one parent: snapshots `HEAD`'s tree with
/// the marker file replaced by `token`, and commits the snapshot onto
/// `HEAD` with the given timestamp (seconds since the epoch, UTC, zero
/// offset) as both authored and committed time.  `HEAD` moves exactly
/// when the call succeeds, by one commit whose sole parent is the old
/// `HEAD`; on failure `HEAD` has not moved.
#[verifier::external_body]
fn append_commit(
    repo: &mut git2::Repository,
    ts: i64,
    token: &Vec<u8>,
    author: &str,
    email: &str,
    message: &str,
) -> (r: Result<(), git2::Error>)
    ensures
        r is Ok ==> rooted(*final(repo)) == rooted(*old(repo)) && lineage(*final(repo))
            == lineage(*old(repo)).push((ts, token@)),
        r is Err ==> rooted(*final(repo)) == rooted(*old(repo)) && lineage(*final(repo))
            == lineage(*old(repo)),
{
    let parent = repo.head()?.peel_to_commit()?;
    let blob = repo.blob(token.as_slice())?;
    let mut builder = repo.treebuilder(Some(&parent.tree()?))?;
    builder.insert(MARKER_FILE, blob, 0o100644)?;
    let tree = repo.find_tree(builder.write()?)?;
    let sig = git2::Signature::new(author, email, &git2::Time::new(ts, 0))?;
    repo.commit(Some("HEAD"), &sig, &sig, message, &tree, &[&parent])?;
    Ok(())
}

/// The decimal digits of `n`, as ASCII bytes.
pub open spec fn dec_bytes(n: nat) -> Seq<u8>
    decreases n,
{
    if n < 10 {
        seq![(48 + n) as u8]
    } else {
        dec_bytes(n / 10).push((48 + n % 10) as u8)
    }
}

proof fn lemma_dec_bytes_len(n: nat)
    ensures
        dec_bytes(n).len() >= 1,
        n >= 10 ==> dec_bytes(n).len() >= 2,
    decreases n,
{
    if n >= 10 {
        lemma_dec_bytes_len(n / 10);
    }
}

/// Distinct numbers have distinct decimal digit strings.
proof fn lemma_dec_bytes_injective(a: nat, b: nat)
    requires
        dec_bytes(a) == dec_bytes(b),
    ensures
        a == b,
    decreases a,
{
    lemma_dec_bytes_len(a);
    lemma_dec_bytes_len(b);
    if a < 10 && b < 10 {
        assert(dec_bytes(a) == seq![(48 + a) as u8]);
        assert(dec_bytes(b) == seq![(48 + b) as u8]);
        assert(seq![(48 + a) as u8][0] == (48 + a) as u8);
        assert(seq![(48 + b) as u8][0] == (48 + b) as u8);
        assert((48 + a) as u8 == 48 + a);
        assert((48 + b) as u8 == 48 + b);
        assert(dec_bytes(a)[0] == dec_bytes(b)[0]);
    } else if a < 10 {
        assert(dec_bytes(a).len() == 1);
        assert(false);
    } else if b < 10 {
        assert(dec_bytes(b).len() == 1);
        assert(false);
    } else {
        assert(dec_bytes(a) == dec_bytes(a / 10).push((48 + a % 10) as u8));
        assert(dec_bytes(b) == dec_bytes(b / 10).push((48 + b % 10) as u8));
        assert(dec_bytes(a).last() == (48 + a % 10) as u8);
        assert(dec_bytes(b).last() == (48 + b % 10) as u8);
        assert(dec_bytes(a).last() == dec_bytes(b).last());
        assert(dec_bytes(a).drop_last() == dec_bytes(b).drop_last());
        assert(dec_bytes(a).drop_last() =~= dec_bytes(a / 10));
        assert(dec_bytes(b).drop_last() =~= dec_bytes(b / 10));
        lemma_dec_bytes_injective(a / 10, b / 10);
        assert(0 <= a % 10 < 10 && 0 <= b % 10 < 10);
        assert((48 + a % 10) as u8 == 48 + a % 10);
        assert((48 + b % 10) as u8 == 48 + b % 10);
        assert(a % 10 == b % 10);
        vstd::arithmetic::div_mod::lemma_fundamental_div_mod(a as int, 10);
        vstd::arithmetic::div_mod::lemma_fundamental_div_mod(b as int, 10);
    }
}

/// The marker token of the commit numbered `k` within one run: the run's
/// own prefix, a separator, and the number's decimal digits.
pub open spec fn token_spec(prefix: Seq<u8>, k: nat) -> Seq<u8> {
    prefix + seq![58u8] + dec_bytes(k)
}

/// Within one run, differently numbered commits carry different tokens.
pub proof fn lemma_token_distinct(prefix: Seq<u8>, k1: nat, k2: nat)
    requires
        k1 != k2,
    ensures
        token_spec(prefix, k1) != token_spec(prefix, k2),
{
    if token_spec(prefix, k1) == token_spec(prefix, k2) {
        let p: int = prefix.len() as int + 1;
        assert(token_spec(prefix, k1).skip(p) =~= dec_bytes(k1));
        assert(token_spec(prefix, k2).skip(p) =~= dec_bytes(k2));
        lemma_dec_bytes_injective(k1, k2);
    }
}

fn push_dec(v: &mut Vec<u8>, n: u128)
    ensures
        final(v)@ == old(v)@ + dec_bytes(n as nat),
    decreases n,
{
    if n < 10 {
        v.push(48 + n as u8);
        proof {
            assert(v@ =~= old(v)@ + dec_bytes(n as nat));
        }
    } else {
        push_dec(v, n / 10);
        v.push(48 + (n % 10) as u8);
        proof {
            assert(v@ =~= old(v)@ + dec_bytes(n as nat));
        }
    }
}

fn make_token(prefix: &Vec<u8>, k: u128) -> (t: Vec<u8>)
    ensures
        t@ == token_spec(prefix@, k as nat),
{
    let mut t: Vec<u8> = Vec::new();
    let mut i: usize = 0;
    while i < prefix.len()
        invariant
            i <= prefix@.len(),
            t@ == prefix@.take(i as int),
        decreases prefix@.len() - i,
    {
        t.push(prefix[i]);
        proof {
            assert(t@ =~= prefix@.take(i + 1));
        }
        i = i + 1;
    }
    proof {
        assert(prefix@.take(prefix@.len() as int) =~= prefix@);
    }
    t.push(58);
    push_dec(&mut t, k);
    proof {
        assert(t@ =~= token_spec(prefix@, k as nat));
    }
    t
}

/// The total intensity of the cells: the number of commits a run makes.
pub open spec fn sum_intensities(cells: Seq<State>) -> nat
    decreases cells.len(),
{
    if cells.len() == 0 {
        0
    } else {
        sum_intensities(cells.drop_last()) + cells.last().1 as nat
    }
}

/// The commits synthesized for one cell: `n` commits at the midnight of
/// day `day`, numbered from `k0`.
pub open spec fn day_commits(day: int, n: nat, prefix: Seq<u8>, k0: nat) -> Seq<(i64, Seq<u8>)>
    decreases n,
{
    if n == 0 {
        Seq::empty()
    } else {
        day_commits(day, (n - 1) as nat, prefix, k0).push(
            (midnight_epoch_seconds(day) as i64, token_spec(prefix, (k0 + n - 1) as nat)),
        )
    }
}

/// The commits a full run over `cells` appends, in order: for every cell,
/// one commit per unit of intensity, numbered consecutively from `k0`.
pub open spec fn plan(cells: Seq<State>, prefix: Seq<u8>, k0: nat) -> Seq<(i64, Seq<u8>)>
    decreases cells.len(),
{
    if cells.len() == 0 {
        Seq::empty()
    } else {
        plan(cells.drop_last(), prefix, k0) + day_commits(
            cells.last().0@,
            cells.last().1 as nat,
            prefix,
            k0 + sum_intensities(cells.drop_last()),
        )
    }
}

/// A cell contributes exactly its intensity in commits.
pub proof fn lemma_day_commits_len(day: int, n: nat, prefix: Seq<u8>, k0: nat)
    ensures
        day_commits(day, n, prefix, k0).len() == n,
    decreases n,
{
    if n > 0 {
        lemma_day_commits_len(day, (n - 1) as nat, prefix, k0);
    }
}

/// A run's total number of commits equals the sum of all intensities.
pub proof fn lemma_plan_len(cells: Seq<State>, prefix: Seq<u8>, k0: nat)
    ensures
        plan(cells, prefix, k0).len() == sum_intensities(cells),
    decreases cells.len(),
{
    if cells.len() > 0 {
        lemma_plan_len(cells.drop_last(), prefix, k0);
        lemma_day_commits_len(
            cells.last().0@,
            cells.last().1 as nat,
            prefix,
            k0 + sum_intensities(cells.drop_last()),
        );
    }
}

/// A grid of all-zero intensities plans no commits at all.
pub proof fn lemma_sum_zero(cells: Seq<State>)
    requires
        forall|i: int| 0 <= i < cells.len() ==> #[trigger] cells[i].1 == 0,
    ensures
        sum_intensities(cells) == 0,
    decreases cells.len(),
{
    if cells.len() > 0 {
        assert(cells.last() == cells[cells.len() - 1]);
        lemma_sum_zero(cells.drop_last());
    }
}

/// Every commit synthesized for one cell carries that cell's timestamp
/// and its own number's token.
pub proof fn lemma_day_commits_entry(day: int, n: nat, prefix: Seq<u8>, k0: nat, j: int)
    requires
        0 <= j < n,
    ensures
        day_commits(day, n, prefix, k0).len() == n,
        day_commits(day, n, prefix, k0)[j] == (
            midnight_epoch_seconds(day) as i64,
            token_spec(prefix, (k0 + j) as nat),
        ),
    decreases n,
{
    lemma_day_commits_len(day, n, prefix, k0);
    if j < n - 1 {
        lemma_day_commits_entry(day, (n - 1) as nat, prefix, k0, j);
    }
}

/// Commits synthesized for one cell all share the cell's timestamp, but
/// no two of them share a marker token: their trees differ.
pub proof fn lemma_same_cell_commits(day: int, n: nat, prefix: Seq<u8>, k0: nat, j1: int, j2: int)
    requires
        0 <= j1 < n,
        0 <= j2 < n,
        j1 != j2,
    ensures
        day_commits(day, n, prefix, k0)[j1].0 == day_commits(day, n, prefix, k0)[j2].0,
        day_commits(day, n, prefix, k0)[j1].1 != day_commits(day, n, prefix, k0)[j2].1,
{
    lemma_day_commits_entry(day, n, prefix, k0, j1);
    lemma_day_commits_entry(day, n, prefix, k0, j2);
    lemma_token_distinct(prefix, (k0 + j1) as nat, (k0 + j2) as nat);
}

/// The commit numbered `j` of a run carries its own number's token: the
/// numbering over the whole plan is consecutive.
pub proof fn lemma_plan_entry_token(cells: Seq<State>, prefix: Seq<u8>, k0: nat, j: int)
    requires
        0 <= j < plan(cells, prefix, k0).len(),
    ensures
        plan(cells, prefix, k0)[j].1 == token_spec(prefix, (k0 + j) as nat),
    decreases cells.len(),
{
    lemma_plan_len(cells, prefix, k0);
    lemma_plan_len(cells.drop_last(), prefix, k0);
    if j < sum_intensities(cells.drop_last()) {
        lemma_plan_entry_token(cells.drop_last(), prefix, k0, j);
    } else {
        let k1: nat = k0 + sum_intensities(cells.drop_last());
        lemma_day_commits_entry(
            cells.last().0@,
            cells.last().1 as nat,
            prefix,
            k1,
            j - sum_intensities(cells.drop_last()),
        );
    }
}

/// Replaying more cells never plans fewer commits.
proof fn lemma_sum_take_monotone(cells: Seq<State>, a: int, b: int)
    requires
        0 <= a <= b <= cells.len(),
    ensures
        sum_intensities(cells.take(a)) <= sum_intensities(cells.take(b)),
    decreases b - a,
{
    if a < b {
        lemma_sum_take_monotone(cells, a, b - 1);
        assert(cells.take(b).drop_last() =~= cells.take(b - 1));
        assert(cells.take(b).last() == cells[b - 1]);
    }
}

/// Each synthesized commit's timestamp is the midnight of its originating
/// cell: the commit numbered `j` within cell `i` stands at position
/// `sum(take(i)) + j` of the plan and carries cell `i`'s midnight and its
/// own number's token.
pub proof fn lemma_plan_cell_commit(cells: Seq<State>, prefix: Seq<u8>, k0: nat, i: int, j: int)
    requires
        0 <= i < cells.len(),
        0 <= j < cells[i].1,
    ensures
        plan(cells, prefix, k0).len() == sum_intensities(cells),
        sum_intensities(cells.take(i)) + j < sum_intensities(cells),
        plan(cells, prefix, k0)[sum_intensities(cells.take(i)) + j] == (
            midnight_epoch_seconds(cells[i].0@) as i64,
            token_spec(prefix, (k0 + sum_intensities(cells.take(i)) + j) as nat),
        ),
    decreases cells.len(),
{
    lemma_plan_len(cells, prefix, k0);
    lemma_plan_len(cells.drop_last(), prefix, k0);
    assert(cells.take(cells.len() - 1) =~= cells.drop_last());
    assert(cells.take(i + 1).drop_last() =~= cells.take(i));
    assert(cells.take(i + 1).last() == cells[i]);
    lemma_sum_take_monotone(cells, i + 1, cells.len() as int);
    assert(cells.take(cells.len() as int) =~= cells);
    if i == cells.len() - 1 {
        lemma_day_commits_entry(
            cells.last().0@,
            cells.last().1 as nat,
            prefix,
            k0 + sum_intensities(cells.drop_last()),
            j,
        );
    } else {
        assert(cells.drop_last().take(i) =~= cells.take(i));
        assert(cells.drop_last().take(i + 1) =~= cells.take(i + 1));
        lemma_sum_take_monotone(cells.drop_last(), i + 1, cells.drop_last().len() as int);
        assert(cells.drop_last().take(cells.drop_last().len() as int) =~= cells.drop_last());
        lemma_plan_cell_commit(cells.drop_last(), prefix, k0, i, j);
    }
}

/// No two commits of one run share a marker token, whatever their cells:
/// every synthesized tree differs from every other of the run.
pub proof fn lemma_plan_tokens_distinct(
    cells: Seq<State>,
    prefix: Seq<u8>,
    k0: nat,
    j1: int,
    j2: int,
)
    requires
        0 <= j1 < plan(cells, prefix, k0).len(),
        0 <= j2 < plan(cells, prefix, k0).len(),
        j1 != j2,
    ensures
        plan(cells, prefix, k0)[j1].1 != plan(cells, prefix, k0)[j2].1,
{
    lemma_plan_entry_token(cells, prefix, k0, j1);
    lemma_plan_entry_token(cells, prefix, k0, j2);
    lemma_token_distinct(prefix, (k0 + j1) as nat, (k0 + j2) as nat);
}

/// The chain after replaying a grid onto a fresh root is linear and
/// counted: walking parent pointers from `HEAD` passes one commit per
/// unit of intensity and then the root — `1 + total intensity` commits
/// in all.
pub proof fn lemma_chain_reaches_root(cells: Seq<State>, prefix: Seq<u8>, lin: Seq<(i64, Seq<u8>)>)
    requires
        lin == Seq::<(i64, Seq<u8>)>::empty() + plan(cells, prefix, 0),
    ensures
        lin.len() + 1 == 1 + sum_intensities(cells),
{
    lemma_plan_len(cells, prefix, 0);
    assert(lin =~= plan(cells, prefix, 0));
}

/// Whether `(i, j)` marks a stopping point in the replay of `cells`:
/// `j` commits made for cell `i`, all earlier cells replayed in full.
pub open spec fn partial_ok(cells: Seq<State>, i: int, j: nat) -> bool {
    &&& 0 <= i <= cells.len()
    &&& i < cells.len() ==> j <= cells[i].1
    &&& i == cells.len() ==> j == 0
}

/// The commits appended by a run stopped at cell `i` after `j` commits
/// for that cell: an initial segment of the full plan.
pub open spec fn partial_plan(cells: Seq<State>, prefix: Seq<u8>, i: int, j: nat) -> Seq<
    (i64, Seq<u8>),
> {
    plan(cells.take(i), prefix, 0) + if i < cells.len() {
        day_commits(cells[i].0@, j, prefix, sum_intensities(cells.take(i)))
    } else {
        Seq::empty()
    }
}

/// Extending the replayed region by one cell appends that cell's commits.
pub proof fn lemma_plan_snoc(cells: Seq<State>, i: int, prefix: Seq<u8>, k0: nat)
    requires
        0 <= i < cells.len(),
    ensures
        plan(cells.take(i + 1), prefix, k0) == plan(cells.take(i), prefix, k0) + day_commits(
            cells[i].0@,
            cells[i].1 as nat,
            prefix,
            k0 + sum_intensities(cells.take(i)),
        ),
{
    assert(cells.take(i + 1).drop_last() =~= cells.take(i));
    assert(cells.take(i + 1).last() == cells[i]);
}

/// The synthesizer: a target path, the grid to replay, an optionally
/// bound repository handle, and the authorship configuration.
pub struct GeneratedRepository {
    path: String,
    map: StateMap,
    repository: Option<git2::Repository>,
    msg: Option<String>,
    author: Option<String>,
    email: Option<String>,
}

impl GeneratedRepository {
    /// The configured target path.
    pub closed spec fn spec_path(&self) -> Seq<char> {
        self.path@
    }

    /// The grid this synthesizer replays.
    pub closed spec fn spec_map(&self) -> Seq<State> {
        self.map@
    }

    /// The bound repository handle, if any.
    pub closed spec fn spec_repo(&self) -> Option<git2::Repository> {
        self.repository
    }

    /// The configured commit message override, if any.
    pub closed spec fn spec_msg(&self) -> Option<Seq<char>> {
        match self.msg {
            Some(s) => Some(s@),
            None => None,
        }
    }

    /// The configured author name override, if any.
    pub closed spec fn spec_author(&self) -> Option<Seq<char>> {
        match self.author {
            Some(s) => Some(s@),
            None => None,
        }
    }

    /// The configured author email override, if any.
    pub closed spec fn spec_email(&self) -> Option<Seq<char>> {
        match self.email {
            Some(s) => Some(s@),
            None => None,
        }
    }

    /// The commit message a run signs with: the override or the default.
    pub open spec fn effective_msg_spec(&self) -> Seq<char> {
        match self.spec_msg() {
            Some(s) => s,
            None => DEFAULT_MESSAGE@,
        }
    }

    /// The author name a run signs with: the override or the default.
    pub open spec fn effective_author_spec(&self) -> Seq<char> {
        match self.spec_author() {
            Some(s) => s,
            None => DEFAULT_AUTHOR@,
        }
    }

    /// The author email a run signs with: the override or the default.
    pub open spec fn effective_email_spec(&self) -> Seq<char> {
        match self.spec_email() {
            Some(s) => s,
            None => DEFAULT_EMAIL@,
        }
    }

    /// A synthesizer for the given target path and grid, not yet bound to
    /// a repository and with no authorship overrides.
    pub fn new(path: String, map: StateMap) -> (r: GeneratedRepository)
        ensures
            r.spec_path() == path@,
            r.spec_map() == map@,
            r.spec_repo() is None,
            r.spec_msg() is None,
            r.spec_author() is None,
            r.spec_email() is None,
    {
        GeneratedRepository {
            path,
            map,
            repository: None,
            msg: None,
            author: None,
            email: None,
        }
    }

    /// Override the commit message.
    pub fn set_message(&mut self, msg: String)
        ensures
            final(self).spec_msg() == Some(msg@),
            final(self).spec_author() == old(self).spec_author(),
            final(self).spec_email() == old(self).spec_email(),
            final(self).spec_path() == old(self).spec_path(),
            final(self).spec_map() == old(self).spec_map(),
            final(self).spec_repo() == old(self).spec_repo(),
    {
        self.msg = Some(msg);
    }

    /// Override the author name.
    pub fn set_author(&mut self, author: String)
        ensures
            final(self).spec_author() == Some(author@),
            final(self).spec_msg() == old(self).spec_msg(),
            final(self).spec_email() == old(self).spec_email(),
            final(self).spec_path() == old(self).spec_path(),
            final(self).spec_map() == old(self).spec_map(),
            final(self).spec_repo() == old(self).spec_repo(),
    {
        self.author = Some(author);
    }

    /// Override the author email.
    pub fn set_email(&mut self, email: String)
        ensures
            final(self).spec_email() == Some(email@),
            final(self).spec_msg() == old(self).spec_msg(),
            final(self).spec_author() == old(self).spec_author(),
            final(self).spec_path() == old(self).spec_path(),
            final(self).spec_map() == old(self).spec_map(),
            final(self).spec_repo() == old(self).spec_repo(),
    {
        self.email = Some(email);
    }

    fn effective_author(&self) -> (s: String)
        ensures
            s@ == self.effective_author_spec(),
    {
        match &self.author {
            Some(a) => a.clone(),
            None => DEFAULT_AUTHOR.to_owned(),
        }
    }

    fn effective_email(&self) -> (s: String)
        ensures
            s@ == self.effective_email_spec(),
    {
        match &self.email {
            Some(a) => a.clone(),
            None => DEFAULT_EMAIL.to_owned(),
        }
    }

    fn effective_message(&self) -> (s: String)
        ensures
            s@ == self.effective_msg_spec(),
    {
        match &self.msg {
            Some(a) => a.clone(),
            None => DEFAULT_MESSAGE.to_owned(),
        }
    }

    /// Initialize a repository at the configured path, bind it, and write
    /// the parentless root commit at the epoch-zero timestamp.
    pub fn init_repository(&mut self) -> (r: Result<(), GridError>)
        ensures
            final(self).spec_path() == old(self).spec_path(),
            final(self).spec_map() == old(self).spec_map(),
            final(self).spec_msg() == old(self).spec_msg(),
            final(self).spec_author() == old(self).spec_author(),
            final(self).spec_email() == old(self).spec_email(),
            r is Ok ==> final(self).spec_repo() is Some && rooted(
                final(self).spec_repo().unwrap(),
            ) && lineage(final(self).spec_repo().unwrap()) == Seq::<(i64, Seq<u8>)>::empty(),
            r is Err ==> r->Err_0 == GridError::RepositoryInitFailure || r->Err_0
                == GridError::ObjectWriteFailure,
    {
        let author: String = self.effective_author();
        let email: String = self.effective_email();
        let msg: String = self.effective_message();
        let mut repo: git2::Repository = match repo_init(self.path.as_str()) {
            Ok(rp) => rp,
            Err(_) => {
                return Err(GridError::RepositoryInitFailure);
            },
        };
        match root_commit(&mut repo, author.as_str(), email.as_str(), msg.as_str()) {
            Ok(()) => {
                self.repository = Some(repo);
                Ok(())
            },
            Err(_) => {
                self.repository = Some(repo);
                Err(GridError::ObjectWriteFailure)
            },
        }
    }

    /// Open the existing repository at the configured path and bind it.
    pub fn open_repository(&mut self) -> (r: Result<(), GridError>)
        ensures
            final(self).spec_path() == old(self).spec_path(),
            final(self).spec_map() == old(self).spec_map(),
            final(self).spec_msg() == old(self).spec_msg(),
            final(self).spec_author() == old(self).spec_author(),
            final(self).spec_email() == old(self).spec_email(),
            r is Ok ==> final(self).spec_repo() is Some,
            r is Err ==> r->Err_0 == GridError::RepositoryOpenFailure && final(self).spec_repo()
                == old(self).spec_repo(),
    {
        match repo_open(self.path.as_str()) {
            Ok(rp) => {
                self.repository = Some(rp);
                Ok(())
            },
            Err(_) => Err(GridError::RepositoryOpenFailure),
        }
    }

    /// Replay the grid into the bound repository: for every cell in index
    /// order, one commit per unit of intensity, timestamped at the cell's
    /// midnight.  Each commit's marker token joins the id of the commit
    /// `HEAD` held when the run began with the commit's own number, so no
    /// two trees of one run coincide and a rerun's trees differ from the
    /// parent they build on.  Without a bound repository nothing happens
    /// and the run fails; when a repository operation fails, the commits
    /// already appended remain in place.
    pub fn run(&mut self) -> (r: Result<(), GridError>)
        ensures
            final(self).spec_path() == old(self).spec_path(),
            final(self).spec_map() == old(self).spec_map(),
            final(self).spec_msg() == old(self).spec_msg(),
            final(self).spec_author() == old(self).spec_author(),
            final(self).spec_email() == old(self).spec_email(),
            old(self).spec_repo() is None ==> r == Err::<(), GridError>(GridError::NoRepository)
                && final(self).spec_repo() is None,
            old(self).spec_repo() is Some ==> final(self).spec_repo() is Some && rooted(
                final(self).spec_repo().unwrap(),
            ) == rooted(old(self).spec_repo().unwrap()),
            old(self).spec_repo() is Some && r is Ok ==> exists|p: Seq<u8>|
                lineage(final(self).spec_repo().unwrap()) == lineage(
                    old(self).spec_repo().unwrap(),
                ) + #[trigger] plan(old(self).spec_map(), p, 0),
            old(self).spec_repo() is Some && r is Ok ==> lineage(
                final(self).spec_repo().unwrap(),
            ).len() == lineage(old(self).spec_repo().unwrap()).len() + sum_intensities(
                old(self).spec_map(),
            ),
            old(self).spec_repo() is Some && r is Err ==> r->Err_0 == GridError::ObjectWriteFailure
                && exists|p: Seq<u8>, i: int, j: nat|
                    partial_ok(old(self).spec_map(), i, j) && lineage(
                        final(self).spec_repo().unwrap(),
                    ) == lineage(old(self).spec_repo().unwrap()) + #[trigger] partial_plan(
                        old(self).spec_map(),
                        p,
                        i,
                        j,
                    ),
    {
        let author: String = self.effective_author();
        let email: String = self.effective_email();
        let msg: String = self.effective_message();
        let repo_opt: Option<git2::Repository> = self.repository.take();
        let mut repo: git2::Repository = match repo_opt {
            None => {
                return Err(GridError::NoRepository);
            },
            Some(rp) => rp,
        };
        let ghost lin0: Seq<(i64, Seq<u8>)> = lineage(repo);
        let ghost rooted0: bool = rooted(repo);
        let prefix: Vec<u8> = match head_commit_id(&repo) {
            Ok(p) => p,
            Err(_) => {
                self.repository = Some(repo);
                proof {
                    let cells = old(self).spec_map();
                    assert(cells.take(0) =~= Seq::<State>::empty());
                    assert(partial_ok(cells, 0, 0));
                    assert(lineage(repo) =~= lin0 + partial_plan(cells, Seq::<u8>::empty(), 0, 0));
                }
                return Err(GridError::ObjectWriteFailure);
            },
        };
        let mut i: usize = 0;
        let mut k: u128 = 0;
        while i < self.map.0.len()
            invariant
                i <= self.map@.len(),
                self.spec_map() == old(self).spec_map(),
                self.spec_path() == old(self).spec_path(),
                self.spec_msg() == old(self).spec_msg(),
                self.spec_author() == old(self).spec_author(),
                self.spec_email() == old(self).spec_email(),
                self.repository is None,
                old(self).spec_repo() is Some,
                lineage(old(self).spec_repo().unwrap()) == lin0,
                rooted(old(self).spec_repo().unwrap()) == rooted0,
                k == sum_intensities(self.map@.take(i as int)),
                k <= 255 * i,
                rooted(repo) == rooted0,
                lineage(repo) == lin0 + plan(self.map@.take(i as int), prefix@, 0),
            decreases self.map@.len() - i,
        {
            let cell: State = self.map.0[i];
            let n: u8 = cell.1;
            let ts: i64 = cell.0.epoch_seconds();
            let ghost k0: nat = sum_intensities(self.map@.take(i as int));
            let ghost day: int = self.map@[i as int].0@;
            let mut j: u8 = 0;
            while j < n
                invariant
                    j <= n,
                    i < self.map@.len(),
                    self.spec_map() == old(self).spec_map(),
                    self.spec_path() == old(self).spec_path(),
                    self.spec_msg() == old(self).spec_msg(),
                    self.spec_author() == old(self).spec_author(),
                    self.spec_email() == old(self).spec_email(),
                    cell == self.map@[i as int],
                    n == cell.1,
                    day == cell.0@,
                    ts == midnight_epoch_seconds(day),
                    k0 == sum_intensities(self.map@.take(i as int)),
                    k == k0 + j,
                    k <= 255 * i + j,
                    self.repository is None,
                    old(self).spec_repo() is Some,
                    lineage(old(self).spec_repo().unwrap()) == lin0,
                    rooted(old(self).spec_repo().unwrap()) == rooted0,
                    rooted(repo) == rooted0,
                    lineage(repo) == lin0 + plan(self.map@.take(i as int), prefix@, 0)
                        + day_commits(day, j as nat, prefix@, k0),
                decreases n - j,
            {
                let token: Vec<u8> = make_token(&prefix, k);
                match append_commit(
                    &mut repo,
                    ts,
                    &token,
                    author.as_str(),
                    email.as_str(),
                    msg.as_str(),
                ) {
                    Ok(()) => {},
                    Err(_) => {
                        self.repository = Some(repo);
                        proof {
                            let cells = old(self).spec_map();
                            assert(partial_ok(cells, i as int, j as nat));
                            assert(lineage(repo) =~= lin0 + partial_plan(
                                cells,
                                prefix@,
                                i as int,
                                j as nat,
                            ));
                        }
                        return Err(GridError::ObjectWriteFailure);
                    },
                }
                proof {
                    assert(day_commits(day, (j + 1) as nat, prefix@, k0) == day_commits(
                        day,
                        j as nat,
                        prefix@,
                        k0,
                    ).push((midnight_epoch_seconds(day) as i64, token_spec(prefix@, (k0 + j) as nat))));
                    assert((midnight_epoch_seconds(day) as i64) == ts);
                    assert(token@ == token_spec(prefix@, (k0 + j) as nat));
                    assert(lineage(repo) =~= lin0 + plan(self.map@.take(i as int), prefix@, 0)
                        + day_commits(day, (j + 1) as nat, prefix@, k0));
                }
                k = k + 1;
                j = j + 1;
            }
            proof {
                lemma_plan_snoc(self.map@, i as int, prefix@, 0);
                assert(self.map@.take(i + 1).drop_last() =~= self.map@.take(i as int));
                assert(sum_intensities(self.map@.take(i + 1)) == sum_intensities(
                    self.map@.take(i as int),
                ) + n);
                assert(lineage(repo) =~= lin0 + plan(self.map@.take(i + 1), prefix@, 0));
            }
            i = i + 1;
        }
        proof {
            assert(self.map@.take(self.map@.len() as int) =~= self.map@);
            assert(lineage(repo) == lin0 + plan(old(self).spec_map(), prefix@, 0));
            lemma_plan_len(old(self).spec_map(), prefix@, 0);
        }
        self.repository = Some(repo);
        Ok(())
    }
}

} // verus!
