//! The log of the error output of the sidecar: lines are appended to one file, and when it
//! has grown large it becomes the first of a row of older files.
use vstd::prelude::*;
use vstd::string::*;

use crate::paths::{HermesPath, Location};
use crate::text::{decimal, law_decimal, numeral, texts};

verus! {

/// The name of the file to which lines are appended.
pub const ACTIVE_LOG: &'static str = "sidecar_stderr.log";

/// How many lines are read where no number is asked for.
pub const DEFAULT_LOG_LINES: usize = 200;

/// A log of which older parts are kept.
pub struct LogRotator {
    dir: HermesPath,
    max_rotations: usize,
    max_bytes: u64,
}

/// The size of a number of mebibytes in bytes, or the largest number where that is too much.
pub open spec fn mebibytes(n: int) -> u64 {
    if n * 1048576 > u64::MAX {
        u64::MAX
    } else {
        (n * 1048576) as u64
    }
}

/// The name of an older file.
pub open spec fn older_name(n: nat) -> Seq<char> {
    ACTIVE_LOG@ + "."@ + decimal(n)
}

/// What is done to the row of files, in which the file to which lines are appended has the place
/// zero, and the older files follow. Both do nothing where there is no file to do it to.
#[derive(Debug, PartialEq, Eq)]
pub enum RotationStep {
    /// The file in a place is removed.
    Remove(usize),
    /// The file in the first place goes to the second.
    Move(usize, usize),
}

/// What a step does to the files in their places.
pub open spec fn applied<T>(files: Map<nat, T>, step: RotationStep) -> Map<nat, T> {
    match step {
        RotationStep::Remove(n) => files.remove(n as nat),
        RotationStep::Move(a, b) => if files.dom().contains(a as nat) {
            files.remove(a as nat).insert(b as nat, files[a as nat])
        } else {
            files
        },
    }
}

/// What steps do one after the other.
pub open spec fn applied_all<T>(files: Map<nat, T>, steps: Seq<RotationStep>) -> Map<nat, T>
    decreases steps.len(),
{
    if steps.len() == 0 {
        files
    } else {
        applied(applied_all(files, steps.drop_last()), steps.last())
    }
}

/// The steps by which every file of a row goes one place on: the last place is cleared, and then
/// every file is moved, the oldest first.
pub open spec fn moving_on(n: int, from: int) -> Seq<RotationStep>
    decreases n - from,
{
    if from >= n {
        seq![RotationStep::Remove(n as usize)]
    } else {
        moving_on(n, from + 1).push(RotationStep::Move(from as usize, (from + 1) as usize))
    }
}

impl LogRotator {
    /// The directory of the log.
    pub closed spec fn location(&self) -> Location {
        self.dir@
    }

    /// How many older files are kept.
    pub closed spec fn kept(&self) -> usize {
        self.max_rotations
    }

    /// From what size on the file is put away; never where it is zero.
    pub closed spec fn limit(&self) -> u64 {
        self.max_bytes
    }

    /// At least one older file is kept.
    #[verifier::type_invariant]
    spec fn wf(self) -> bool {
        self.max_rotations >= 1
    }

    /// The file has grown so large that it is put away.
    pub open spec fn is_full(&self, active_len: Option<u64>) -> bool {
        match active_len {
            Some(n) => self.limit() > 0 && n >= self.limit(),
            None => false,
        }
    }

    /// The steps before a line is appended, by the size of the file.
    pub open spec fn rotation(&self, active_len: Option<u64>) -> Seq<RotationStep> {
        if self.is_full(active_len) {
            moving_on(self.kept() as int, 0)
        } else {
            Seq::empty()
        }
    }

    /// A log in a directory that keeps so many older files, and puts the file away when it has
    /// grown to so many mebibytes.
    pub fn new(log_dir: HermesPath, max_rotations: usize, max_size_mb: usize) -> (r: LogRotator)
        ensures
            r.location() == log_dir@,
            r.kept() == if max_rotations < 1 {
                1
            } else {
                max_rotations
            },
            r.limit() == mebibytes(max_size_mb as int),
    {
        let size: u64 = max_size_mb as u64;
        let max_bytes: u64 = if size > u64::MAX / 1048576 {
            u64::MAX
        } else {
            size * 1048576
        };
        let kept: usize = if max_rotations < 1 {
            1
        } else {
            max_rotations
        };
        LogRotator { dir: log_dir, max_rotations: kept, max_bytes }
    }

    /// The path of the file to which lines are appended.
    pub fn active_path(&self) -> (r: HermesPath)
        ensures
            r@ == self.location().join(ACTIVE_LOG@),
    {
        self.dir.copy().join(ACTIVE_LOG)
    }

    /// The path of the older file with a number.
    pub fn rotated_path(&self, n: usize) -> (r: HermesPath)
        ensures
            r@ == self.location().join(older_name(n as nat)),
    {
        let mut name = ACTIVE_LOG.to_owned();
        name.append(".");
        name.append(numeral(n as u128).as_str());
        self.dir.copy().join(name.as_str())
    }

    /// The steps by which the file is put away where it has grown too large.
    pub fn rotate_if_needed(&self, active_len: Option<u64>) -> (r: Vec<RotationStep>)
        ensures
            r@ == self.rotation(active_len),
            self.kept() >= 1,
    {
        proof {
            use_type_invariant(self);
        }
        let mut steps: Vec<RotationStep> = Vec::new();
        if self.max_bytes == 0 {
            return steps;
        }
        let len: u64 = match active_len {
            Some(n) => n,
            None => {
                return steps;
            },
        };
        if len < self.max_bytes {
            return steps;
        }
        let n: usize = self.max_rotations;
        steps.push(RotationStep::Remove(n));
        let mut i: usize = n;
        assert(steps@ =~= moving_on(n as int, n as int));
        while i > 0
            invariant
                i <= n,
                steps@ == moving_on(n as int, i as int),
            decreases i,
        {
            i = i - 1;
            steps.push(RotationStep::Move(i, i + 1));
        }
        steps
    }

    /// What writing a line does: the steps that come first, and the text that is appended.
    pub fn write_line(&self, active_len: Option<u64>, line: &str) -> (r: (
        Vec<RotationStep>,
        String,
    ))
        ensures
            r.0@ == self.rotation(active_len),
            r.1@ == line@.push('\n'),
            self.kept() >= 1,
    {
        let steps = self.rotate_if_needed(active_len);
        let mut appended = line.to_owned();
        appended.push('\n');
        (steps, appended)
    }

    /// The last lines of the log, from all of its lines; none where it cannot be read.
    pub fn read_recent(&self, max_lines: usize, lines: Option<Vec<String>>) -> (r: Vec<String>)
        ensures
            texts(r@) == (match lines {
                Some(v) => last_lines(texts(v@), max_lines as int),
                None => Seq::empty(),
            }),
    {
        let none: Vec<String> = Vec::new();
        assert(texts(none@) =~= Seq::<Seq<char>>::empty());
        if max_lines == 0 {
            proof {
                if let Some(v) = lines {
                    assert(last_lines(texts(v@), 0) =~= Seq::<Seq<char>>::empty());
                }
            }
            return none;
        }
        match lines {
            Some(v) => {
                let mut recent = RecentLines::new();
                let mut i: usize = 0;
                assert(texts(v@).take(0) =~= Seq::<Seq<char>>::empty());
                while i < v.len()
                    invariant
                        i <= v@.len(),
                        max_lines > 0,
                        recent@ == last_lines(texts(v@).take(i as int), max_lines as int),
                    decreases v@.len() - i,
                {
                    proof {
                        let all = texts(v@);
                        lemma_one_more_line(all.take(i as int), all[i as int], max_lines as int);
                        assert(all.take(i + 1) =~= all.take(i as int).push(all[i as int]));
                    }
                    recent.push(v[i].clone(), max_lines);
                    i = i + 1;
                }
                assert(texts(v@).take(i as int) =~= texts(v@));
                recent.into_vec()
            },
            None => none,
        }
    }
}

/// The last `n` of the lines.
pub open spec fn last_lines(lines: Seq<Seq<char>>, n: int) -> Seq<Seq<char>> {
    if lines.len() > n {
        lines.skip(lines.len() - n)
    } else {
        lines
    }
}

/// The lines with one more; the oldest leaves where there are `max` of them.
pub open spec fn recent_with(lines: Seq<Seq<char>>, line: Seq<char>, max: int) -> Seq<Seq<char>> {
    (if lines.len() >= max {
        lines.drop_first()
    } else {
        lines
    }).push(line)
}

/// The last lines of lines with one more.
proof fn lemma_one_more_line(lines: Seq<Seq<char>>, line: Seq<char>, n: int)
    requires
        n > 0,
    ensures
        last_lines(lines.push(line), n) == recent_with(last_lines(lines, n), line, n),
{
    assert(last_lines(lines.push(line), n) =~= recent_with(last_lines(lines, n), line, n));
}

/// The last lines that were seen.
pub struct RecentLines {
    lines: Vec<String>,
}

impl View for RecentLines {
    type V = Seq<Seq<char>>;

    closed spec fn view(&self) -> Seq<Seq<char>> {
        texts(self.lines@)
    }
}

impl RecentLines {
    /// No line was seen.
    pub fn new() -> (r: RecentLines)
        ensures
            r@ == Seq::<Seq<char>>::empty(),
    {
        let r = RecentLines { lines: Vec::new() };
        assert(r@ =~= Seq::<Seq<char>>::empty());
        r
    }

    /// One more line was seen; where `max` or more are there already, the oldest leaves.
    pub fn push(&mut self, line: String, max: usize)
        requires
            max > 0 || old(self)@.len() > 0,
        ensures
            final(self)@ == recent_with(old(self)@, line@, max as int),
    {
        let ghost before = self@;
        if self.lines.len() >= max {
            let _ = self.lines.remove(0);
            assert(self@ =~= before.drop_first());
        }
        let ghost kept = self@;
        self.lines.push(line);
        assert(self@ =~= kept.push(line@));
    }

    /// The lines that stayed, the oldest first.
    pub fn into_vec(self) -> (r: Vec<String>)
        ensures
            texts(r@) == self@,
    {
        self.lines
    }
}

// ---------------------------------------------------------------------------
// Laws
// ---------------------------------------------------------------------------

/// What the steps have done when the files from `from` on have gone one place on.
proof fn lemma_moving_on<T>(files: Map<nat, T>, n: int, from: int)
    requires
        0 <= from <= n,
        n <= usize::MAX,
    ensures
        from < n ==> ({
            let after = applied_all(files, moving_on(n, from));
            &&& forall|k: nat|
                #![trigger after.dom().contains(k)]
                after.dom().contains(k) <==> if k < from || k > n {
                    files.dom().contains(k)
                } else {
                    k > from && files.dom().contains((k - 1) as nat)
                }
            &&& forall|k: nat| #[trigger]
                after.dom().contains(k) ==> after[k] == if k < from || k > n {
                    files[k]
                } else {
                    files[(k - 1) as nat]
                }
        }),
        from == n ==> applied_all(files, moving_on(n, from)) == files.remove(n as nat),
    decreases n - from,
{
    let steps = moving_on(n, from);
    if from == n {
        assert(steps.drop_last() =~= Seq::<RotationStep>::empty());
        assert(steps.last() == RotationStep::Remove(n as usize));
        assert(applied_all(files, Seq::<RotationStep>::empty()) == files);
    } else {
        lemma_moving_on(files, n, from + 1);
        let inner = moving_on(n, from + 1);
        assert(steps.drop_last() =~= inner);
        assert(steps.last() == RotationStep::Move(from as usize, (from + 1) as usize));
        let before = applied_all(files, inner);
        let after = applied_all(files, steps);
        assert(after == applied(before, steps.last()));
        if from + 1 == n {
            assert(before == files.remove(n as nat));
        }
        assert(before.dom().contains(from as nat) == files.dom().contains(from as nat));
        if files.dom().contains(from as nat) {
            assert(before[from as nat] == files[from as nat]);
        }
        assert(!before.dom().contains((from + 1) as nat));
    }
}

/// Putting the log away moves every file of the row one place on: the one to which lines are
/// appended becomes the first of the older ones, each older one goes to the next place, the
/// last of them is gone, and files outside of the row stay.
pub proof fn law_rotation<T>(rotator: LogRotator, active_len: Option<u64>, files: Map<nat, T>)
    requires
        rotator.is_full(active_len),
    ensures
        ({
            let after = applied_all(files, rotator.rotation(active_len));
            let n = rotator.kept() as nat;
            &&& !after.dom().contains(0)
            &&& forall|k: nat|
                k < n ==> #[trigger] after.dom().contains((k + 1) as nat) == files.dom().contains(
                    k,
                )
            &&& forall|k: nat|
                k < n && files.dom().contains(k) ==> #[trigger] after[(k + 1) as nat] == files[k]
            &&& forall|k: nat|
                k > n ==> #[trigger] after.dom().contains(k) == files.dom().contains(k)
            &&& forall|k: nat|
                k > n && files.dom().contains(k) ==> #[trigger] after[k] == files[k]
        }),
{
    let n = rotator.kept() as int;
    let after = applied_all(files, rotator.rotation(active_len));
    assert(after == applied_all(files, moving_on(n, 0)));
    lemma_moving_on(files, n, 0);
    assert(!after.dom().contains(0));
    assert forall|k: nat| k < n && files.dom().contains(k) implies #[trigger] after[(k + 1) as nat]
        == files[k] by {
        assert(after.dom().contains((k + 1) as nat));
    }
    assert forall|k: nat| k > n && files.dom().contains(k) implies #[trigger] after[k]
        == files[k] by {
        assert(after.dom().contains(k));
    }
}

/// A log that is not full is left as it is.
pub proof fn law_no_rotation<T>(rotator: LogRotator, active_len: Option<u64>, files: Map<nat, T>)
    requires
        !rotator.is_full(active_len),
    ensures
        applied_all(files, rotator.rotation(active_len)) == files,
{
}

/// A number of mebibytes is 1048576 times as many bytes, or the largest number of 64 bits where
/// that is less.
pub proof fn law_mebibytes(n: int)
    requires
        n >= 0,
    ensures
        n * 1048576 <= u64::MAX ==> mebibytes(n) == n * 1048576,
        n * 1048576 > u64::MAX ==> mebibytes(n) == u64::MAX,
{
}

/// A log is full where it is there and has grown to its limit; one without a limit is never full.
pub proof fn law_full(rotator: LogRotator, n: u64)
    ensures
        !rotator.is_full(None),
        rotator.limit() == 0 ==> !rotator.is_full(Some(n)),
        rotator.limit() > 0 ==> (rotator.is_full(Some(n)) <==> n >= rotator.limit()),
{
}

/// The last lines are as many as are asked for, or all where there are fewer, and they are
/// those at the end, in their order.
pub proof fn law_last_lines(lines: Seq<Seq<char>>, n: int, i: int)
    requires
        n >= 0,
    ensures
        ({
            let l = last_lines(lines, n);
            &&& lines.len() <= n ==> l == lines
            &&& lines.len() > n ==> l.len() == n
            &&& 0 <= i < l.len() ==> l[l.len() - 1 - i] == lines[lines.len() - 1 - i]
        }),
{
}

/// An older file is named by its number, behind the name of the log; no two numbers give one
/// name, and none the name of the log.
pub proof fn law_older_name(n: nat, m: nat)
    ensures
        older_name(n) == "sidecar_stderr.log"@ + "."@ + decimal(n),
        n != m ==> older_name(n) != older_name(m),
        older_name(n) != ACTIVE_LOG@,
        ACTIVE_LOG@ == "sidecar_stderr.log"@,
{
    law_decimal(n);
    law_decimal(m);
    let head = ACTIVE_LOG@ + "."@;
    assert(older_name(n).skip(head.len() as int) =~= decimal(n));
    assert(older_name(m).skip(head.len() as int) =~= decimal(m));
    assert(older_name(n).len() > ACTIVE_LOG@.len());
}

/// A line is kept behind the others; where there are as many as are kept, the oldest leaves.
pub proof fn law_recent_with(lines: Seq<Seq<char>>, line: Seq<char>, max: int, i: int)
    requires
        0 < max,
        lines.len() <= max,
    ensures
        ({
            let r = recent_with(lines, line, max);
            &&& r.last() == line
            &&& lines.len() < max ==> r.len() == lines.len() + 1 && (0 <= i < lines.len() ==> r[i]
                == lines[i])
            &&& lines.len() == max ==> r.len() == max && (0 < i < lines.len() ==> r[i - 1]
                == lines[i])
        }),
{
}

} // verus!
