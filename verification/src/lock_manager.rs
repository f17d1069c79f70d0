//! Mutual exclusion by lock files: one process per serial line, and one server per
//! project.

use crate::text::{
    cat, cat3, contains_text, decimal, decimal_text, hexadecimal, join_path, joined_path, lines,
    lines_of, occurs, parse_uint, parse_unsigned, radix_text, take_text, trim, trim_text,
};
use vstd::prelude::*;
use vstd::string::*;
use vstd::utf8::encode_utf8;

verus! {

// ── The name of a lock ──────────────────────────────────────────────────────

/// What the hash starts from.
pub const FNV_OFFSET: u64 = 0xcbf29ce484222325;

/// What the hash is multiplied by after each byte.
pub const FNV_PRIME: u64 = 0x100000001b3;

/// The FNV-1a hash of a byte string, in 64 bits.
pub open spec fn fnv1a(bytes: Seq<u8>) -> u64
    decreases bytes.len(),
{
    if bytes.len() == 0 {
        FNV_OFFSET
    } else {
        (((fnv1a(bytes.drop_last()) ^ (bytes.last() as u64)) * FNV_PRIME) % 0x1_0000_0000_0000_0000)
            as u64
    }
}

/// The FNV-1a hash of a text.
pub fn fnv1a_hash(input: &str) -> (r: u64)
    ensures
        r == fnv1a(encode_utf8(input@)),
{
    let bytes = input.as_bytes();
    let mut hash: u64 = FNV_OFFSET;
    let mut i: usize = 0;
    assert(bytes@.subrange(0, 0) =~= Seq::<u8>::empty());
    while i < bytes.len()
        invariant
            i <= bytes@.len(),
            hash == fnv1a(bytes@.subrange(0, i as int)),
        decreases bytes@.len() - i,
    {
        let ghost t = bytes@.subrange(0, i + 1);
        assert(t.drop_last() =~= bytes@.subrange(0, i as int));
        hash = (hash ^ (bytes[i] as u64)).wrapping_mul(FNV_PRIME);
        i = i + 1;
    }
    assert(bytes@.subrange(0, bytes@.len() as int) =~= bytes@);
    hash
}

/// The serial line that a lock is for.
pub open spec fn lock_subject(host: Seq<char>, target: Seq<char>) -> Seq<char> {
    host + ":"@ + target
}

/// The hash of a serial line.
pub open spec fn lock_hash(host: Seq<char>, target: Seq<char>) -> u64 {
    fnv1a(encode_utf8(lock_subject(host, target)))
}

/// Whether the hash of a serial line has the eight hexadecimal digits that name
/// its lock.
pub open spec fn has_lock_name(host: Seq<char>, target: Seq<char>) -> bool {
    hexadecimal(lock_hash(host, target) as nat).len() >= 8
}

/// The path of a lock: the first eight hexadecimal digits of the hash.
pub open spec fn lock_path_of(host: Seq<char>, target: Seq<char>, dir: Seq<char>) -> Seq<char> {
    joined_path(dir, hexadecimal(lock_hash(host, target) as nat).subrange(0, 8) + ".lock"@)
}

/// Whether the hash of a serial line has the eight hexadecimal digits that name
/// its lock.
pub fn lock_is_nameable(host: &str, target: &str) -> (r: bool)
    ensures
        r == has_lock_name(host@, target@),
{
    let subject = cat3(host, ":", target);
    let hex = radix_text(fnv1a_hash(&subject), 16);
    crate::text::chars_of(&hex).len() >= 8
}

/// The path of the lock of a serial line.
pub fn lock_path(host: &str, target: &str, lock_dir: &str) -> (r: String)
    requires
        has_lock_name(host@, target@),
    ensures
        r@ == lock_path_of(host@, target@, lock_dir@),
{
    let subject = cat3(host, ":", target);
    let hex = radix_text(fnv1a_hash(&subject), 16);
    let key = take_text(&hex, 8);
    join_path(lock_dir, &cat(&key, ".lock"))
}

// ── What a lock holds ───────────────────────────────────────────────────────

/// What is written to a lock: who took it, for what, where and when.
pub open spec fn lock_text(
    pid: u32,
    host: Seq<char>,
    target: Seq<char>,
    hostname: Seq<char>,
    timestamp: Seq<char>,
) -> Seq<char> {
    decimal(pid as nat) + "\n"@ + host + ":"@ + target + "\n"@ + hostname + "\n"@ + timestamp
}

/// What is written to a lock.
pub fn lock_content(pid: u32, host: &str, target: &str, hostname: &str, timestamp: &str) -> (r:
    String)
    ensures
        r@ == lock_text(pid, host@, target@, hostname@, timestamp@),
{
    let mut r = cat(&decimal_text(pid as u64), "\n");
    r.append(host);
    r.append(":");
    r.append(target);
    r.append("\n");
    r.append(hostname);
    r.append("\n");
    r.append(timestamp);
    r
}

/// The process that a lock names: the number on its first line.
pub open spec fn holder_of(content: Seq<char>) -> Option<nat> {
    if lines(content).len() == 0 {
        None
    } else {
        parse_unsigned(trim(lines(content)[0]), u32::MAX as nat)
    }
}

/// The process that a lock names.
pub fn lock_holder(content: &str) -> (r: Option<u32>)
    ensures
        match r {
            Some(p) => holder_of(content@) == Some(p as nat),
            None => holder_of(content@) is None,
        },
{
    let all = lines_of(content);
    assert(crate::text::texts(all@).len() == all@.len());
    if all.len() == 0 {
        return None;
    }
    assert(crate::text::texts(all@)[0] == all@[0]@);
    match parse_uint(&trim_text(&all[0]), u32::MAX as u64) {
        Some(p) => Some(p as u32),
        None => None,
    }
}

/// Whether a process exists, by what signalling it returned: it was signalled, or
/// it may not be.
pub fn process_alive(ret: i32, errno: i32) -> (r: bool)
    ensures
        r == (ret == 0 || errno == 1),
{
    ret == 0 || errno == 1
}

// ── Taking a lock ───────────────────────────────────────────────────────────

/// How often creating a lock is tried.
pub const MAX_RETRIES: u8 = 8;

/// What is found where a lock belongs.
#[derive(Debug, Clone, Copy, PartialEq, Eq, Structural)]
pub enum LockSeen {
    /// No file.
    Absent,
    /// A file that names no running process, or cannot be read.
    Stale,
    /// A file that names this running process.
    Held(u32),
}

/// What is to be done next to take a lock.
#[derive(Debug, Clone, Copy, PartialEq, Eq, Structural)]
pub enum LockStep {
    /// Look at the file, and report what is there.
    Look,
    /// Create the file, which must not exist, and report whether that worked.
    Create,
    /// Remove the file, then create it and report whether that worked.
    RemoveAndCreate,
    /// Remove the file, then look at it and report what is there.
    RemoveAndLook,
    /// The lock is taken.
    Taken,
    /// The lock is held by this process.
    Conflict(u32),
    /// Remove the file; the lock counts as held by this process.
    GiveUp(u32),
}

/// Taking a lock: what was tried so far.
pub struct LockAttempt {
    /// How often creating the file failed.
    pub failed: u8,
    /// Whether the file is looked at because creating it just failed.
    pub raced: bool,
}

impl LockAttempt {
    pub fn new() -> (r: (Self, LockStep))
        ensures
            r.0.failed == 0,
            !r.0.raced,
            r.1 == LockStep::Look,
    {
        (LockAttempt { failed: 0, raced: false }, LockStep::Look)
    }

    /// The next step, where the file was looked at. A held lock is never removed.
    pub open spec fn next_after_look(self, seen: LockSeen, own_pid: u32) -> LockStep {
        match seen {
            LockSeen::Held(pid) => LockStep::Conflict(pid),
            _ => if self.raced {
                if self.failed >= MAX_RETRIES {
                    LockStep::GiveUp(own_pid)
                } else {
                    LockStep::RemoveAndLook
                }
            } else if seen == LockSeen::Stale {
                LockStep::RemoveAndCreate
            } else {
                LockStep::Create
            },
        }
    }

    /// Takes in what was found.
    pub fn looked(&mut self, seen: LockSeen, own_pid: u32) -> (r: LockStep)
        ensures
            r == old(self).next_after_look(seen, own_pid),
            final(self).failed == old(self).failed,
            !final(self).raced,
    {
        let raced: bool = self.raced;
        self.raced = false;
        match seen {
            LockSeen::Held(pid) => LockStep::Conflict(pid),
            _ => if raced {
                if self.failed >= MAX_RETRIES {
                    LockStep::GiveUp(own_pid)
                } else {
                    LockStep::RemoveAndLook
                }
            } else if seen == LockSeen::Stale {
                LockStep::RemoveAndCreate
            } else {
                LockStep::Create
            },
        }
    }

    /// Takes in whether the file was created.
    pub fn created(&mut self, ok: bool) -> (r: LockStep)
        requires
            old(self).failed < MAX_RETRIES,
        ensures
            r == (if ok {
                LockStep::Taken
            } else {
                LockStep::Look
            }),
            final(self).failed == old(self).failed + (if ok {
                0int
            } else {
                1int
            }),
            final(self).raced == !ok,
    {
        if ok {
            self.raced = false;
            return LockStep::Taken;
        }
        self.failed = self.failed + 1;
        self.raced = true;
        LockStep::Look
    }
}

// ── One server per project ──────────────────────────────────────────────────

/// What is known of a file that names a server's process.
pub struct PidFile {
    /// What the file holds; nothing where it cannot be read.
    pub content: Option<String>,
    /// Whether the process that it names exists.
    pub alive: bool,
    /// The name of that process; nothing where it cannot be read.
    pub command: Option<String>,
}

/// The model of a `PidFile`.
pub struct PidFileView {
    pub content: Option<Seq<char>>,
    pub alive: bool,
    pub command: Option<Seq<char>>,
}

impl View for PidFile {
    type V = PidFileView;

    open spec fn view(&self) -> PidFileView {
        PidFileView {
            content: crate::text::text_option(self.content),
            alive: self.alive,
            command: crate::text::text_option(self.command),
        }
    }
}

impl PidFileView {
    /// The process that the file names.
    pub open spec fn pid(self) -> Option<nat> {
        match self.content {
            Some(c) => parse_unsigned(trim(c), u32::MAX as nat),
            None => None,
        }
    }

    /// Whether the process that the file names is a running server.
    pub open spec fn serves(self) -> bool {
        self.alive && (self.command matches Some(c) && occurs(c, "debug-console"@))
    }
}

/// The models of the files.
pub open spec fn pid_files_of(v: Seq<PidFile>) -> Seq<PidFileView> {
    Seq::new(v.len(), |i: int| v[i]@)
}

/// The process that a file's content names.
pub fn pid_of(content: &str) -> (r: Option<u32>)
    ensures
        match r {
            Some(p) => parse_unsigned(trim(content@), u32::MAX as nat) == Some(p as nat),
            None => parse_unsigned(trim(content@), u32::MAX as nat) is None,
        },
{
    match parse_uint(&trim_text(content), u32::MAX as u64) {
        Some(p) => Some(p as u32),
        None => None,
    }
}

/// The running server that the files from `i` on name first, and the stale files
/// before it.
pub open spec fn singleton(files: Seq<PidFileView>, i: int) -> (Option<nat>, Seq<usize>)
    decreases files.len() - i,
{
    if i < 0 || i >= files.len() {
        (None, Seq::empty())
    } else {
        match files[i].pid() {
            None => singleton(files, i + 1),
            Some(p) => if files[i].serves() {
                (Some(p), Seq::empty())
            } else {
                let (holder, stale) = singleton(files, i + 1);
                (holder, seq![i as usize] + stale)
            },
        }
    }
}

/// The running server that a project's files name first, and the places of the
/// stale files before it, which are to be removed.
pub fn check_project_singleton(files: &Vec<PidFile>) -> (r: (Option<u32>, Vec<usize>))
    ensures
        match r.0 {
            Some(p) => singleton(pid_files_of(files@), 0).0 == Some(p as nat),
            None => singleton(pid_files_of(files@), 0).0 is None,
        },
        r.1@ == singleton(pid_files_of(files@), 0).1,
{
    let ghost all = pid_files_of(files@);
    let mut stale: Vec<usize> = Vec::new();
    let mut i: usize = 0;
    assert(stale@ + singleton(all, 0).1 =~= singleton(all, 0).1);
    while i < files.len()
        invariant
            i <= files@.len(),
            all == pid_files_of(files@),
            singleton(all, 0).0 == singleton(all, i as int).0,
            singleton(all, 0).1 == stale@ + singleton(all, i as int).1,
        decreases files@.len() - i,
    {
        assert(all[i as int] == files@[i as int]@);
        let pid = match &files[i].content {
            Some(c) => pid_of(c),
            None => None,
        };
        if let Some(p) = pid {
            let serves: bool = files[i].alive && match &files[i].command {
                Some(c) => contains_text(c, "debug-console"),
                None => false,
            };
            if serves {
                assert(stale@ + Seq::<usize>::empty() =~= stale@);
                return (Some(p), stale);
            }
            let ghost before = stale@;
            stale.push(i);
            assert(stale@ + singleton(all, i + 1).1 =~= before + (seq![i] + singleton(
                all,
                i + 1,
            ).1));
        }
        i = i + 1;
    }
    assert(stale@ + Seq::<usize>::empty() =~= stale@);
    (None, stale)
}

// ── Laws ────────────────────────────────────────────────────────────────────

/// Law: a lock is removed only where it names no running process.
pub proof fn law_held_locks_stay(a: LockAttempt, seen: LockSeen, own_pid: u32)
    requires
        a.next_after_look(seen, own_pid) is RemoveAndCreate || a.next_after_look(
            seen,
            own_pid,
        ) is RemoveAndLook || a.next_after_look(seen, own_pid) is GiveUp,
    ensures
        !(seen is Held),
{
}

/// Law: taking a lock ends: after the last try has failed, what is found is a
/// conflict, or it is given up, and before that each try counts.
pub proof fn law_tries_are_bounded(a: LockAttempt, seen: LockSeen, own_pid: u32)
    requires
        a.raced,
        a.failed >= MAX_RETRIES,
    ensures
        a.next_after_look(seen, own_pid) == (match seen {
            LockSeen::Held(pid) => LockStep::Conflict(pid),
            _ => LockStep::GiveUp(own_pid),
        }),
{
}

/// Law: a lock names the process that took it.
pub proof fn law_lock_names_its_holder(
    pid: u32,
    host: Seq<char>,
    target: Seq<char>,
    hostname: Seq<char>,
    timestamp: Seq<char>,
)
    ensures
        holder_of(lock_text(pid, host, target, hostname, timestamp)) == Some(pid as nat),
{
    let d = decimal(pid as nat);
    let t = lock_text(pid, host, target, hostname, timestamp);
    reveal_strlit("\n");
    crate::text::lemma_decimal_digits(pid as nat);
    crate::text::lemma_decimal_round_trip(pid as nat, u32::MAX as nat);
    let k = crate::text::next_index(t, '\n', 0);
    crate::text::lemma_next_index(t, '\n', 0);
    assert forall|i: int| 0 <= i < d.len() implies t[i] == d[i] by {}
    assert(t[d.len() as int] == '\n');
    assert(k == d.len()) by {
        if k < d.len() {
            assert(t[k] == d[k]);
        }
    }
    assert(t.subrange(0, k) =~= d);
    assert(lines(t)[0] == d);
    lemma_digits_are_trimmed(d);
}

/// Digits have no spaces around them.
proof fn lemma_digits_are_trimmed(d: Seq<char>)
    requires
        d.len() > 0,
        crate::text::all_digits(d),
    ensures
        trim(d) == d,
{
    assert(crate::text::is_digit(d[0]));
    assert(crate::text::is_digit(d.last()));
}

/// Law: a lock is told by the host and the target, between them a colon: the hash starts
/// from the offset basis, and each byte is mixed in and multiplied by the prime.
pub proof fn law_lock_hash(bytes: Seq<u8>, b: u8, host: Seq<char>, target: Seq<char>)
    ensures
        fnv1a(Seq::empty()) == 0xcbf29ce484222325,
        fnv1a(bytes.push(b)) == (((fnv1a(bytes) ^ (b as u64)) as int) * 0x100000001b3)
            % 0x1_0000_0000_0000_0000,
        lock_hash(host, target) == fnv1a(encode_utf8(host + ":"@ + target)),
{
    assert(bytes.push(b).drop_last() =~= bytes);
}

/// Law: the lock's file is named by the first eight digits of the hash, in the lock
/// directory.
pub proof fn law_lock_path(host: Seq<char>, target: Seq<char>, dir: Seq<char>)
    requires
        has_lock_name(host, target),
        dir.len() > 0,
        dir.last() != '/',
    ensures
        lock_path_of(host, target, dir) == dir + seq!['/'] + hexadecimal(
            lock_hash(host, target) as nat,
        ).subrange(0, 8) + ".lock"@,
{
    let name = hexadecimal(lock_hash(host, target) as nat).subrange(0, 8);
    lemma_hex_is_no_path(lock_hash(host, target) as nat);
    crate::text::law_paths_are_joined(dir, name + ".lock"@);
    assert(name[0] != '/');
    assert(dir + seq!['/'] + (name + ".lock"@) =~= dir + seq!['/'] + name + ".lock"@);
}

proof fn lemma_hex_is_no_path(n: nat)
    ensures
        hexadecimal(n).len() > 0,
        hexadecimal(n)[0] != '/',
    decreases n,
{
    if n >= 16 {
        lemma_hex_is_no_path(n / 16);
        assert(hexadecimal(n)[0] == hexadecimal(n / 16)[0]);
    }
}

/// Law: a running holder is a conflict; otherwise the file of a lock that is gone is
/// created, that of a stale one is removed first, and a race is tried again up to
/// eight times.
pub proof fn law_lock_steps(a: LockAttempt, seen: LockSeen, own_pid: u32)
    ensures
        seen matches LockSeen::Held(pid) ==> a.next_after_look(seen, own_pid) == LockStep::Conflict(
            pid,
        ),
        !a.raced && seen == LockSeen::Absent ==> a.next_after_look(seen, own_pid)
            == LockStep::Create,
        !a.raced && seen == LockSeen::Stale ==> a.next_after_look(seen, own_pid)
            == LockStep::RemoveAndCreate,
        a.raced && !(seen is Held) && a.failed < 8 ==> a.next_after_look(seen, own_pid)
            == LockStep::RemoveAndLook,
        a.raced && !(seen is Held) && a.failed >= 8 ==> a.next_after_look(seen, own_pid)
            == LockStep::GiveUp(own_pid),
{
}

/// Law: the lock file holds the process, the line, the host's name and the time, each
/// on a line of its own.
pub proof fn law_lock_file(
    pid: u32,
    host: Seq<char>,
    target: Seq<char>,
    hostname: Seq<char>,
    timestamp: Seq<char>,
)
    ensures
        lock_text(pid, host, target, hostname, timestamp) == decimal(pid as nat) + seq!['\n'] + (
        host + ":"@ + target) + seq!['\n'] + hostname + seq!['\n'] + timestamp,
{
    reveal_strlit("\n");
    assert("\n"@ =~= seq!['\n']);
    assert(decimal(pid as nat) + "\n"@ + host + ":"@ + target =~= decimal(pid as nat) + "\n"@ + (
    host + ":"@ + target));
}

/// Law: the holder is the first file's process that runs and is a console; a file
/// before it that names another process is stale, and one that names none is left.
#[verifier::rlimit(50)]
pub proof fn law_singleton(files: Seq<PidFileView>, i: int)
    requires
        0 <= i <= files.len() <= usize::MAX,
    ensures
        ({
            let (holder, stale) = singleton(files, i);
            &&& holder matches Some(p) ==> exists|k: int|
                i <= k < files.len() && (#[trigger] files[k]).pid() == Some(p) && files[k].serves()
                    && forall|j: int|
                    i <= j < k ==> !((#[trigger] files[j]).pid() is Some && files[j].serves())
            &&& holder is None ==> forall|j: int|
                i <= j < files.len() ==> !((#[trigger] files[j]).pid() is Some && files[j].serves())
            &&& forall|s: int|
                0 <= s < stale.len() ==> i <= (#[trigger] stale[s]) < files.len()
                    && files[stale[s] as int].pid() is Some && !files[stale[s] as int].serves()
            &&& holder is None ==> forall|j: int|
                #![trigger files[j]]
                i <= j < files.len() && files[j].pid() is Some ==> stale.contains(j as usize)
        }),
    decreases files.len() - i,
{
    if i < files.len() {
        law_singleton(files, i + 1);
        let (holder, rest) = singleton(files, i + 1);
        let f = files[i];
        if f.pid() is Some && f.serves() {
            assert(files[i].pid() == singleton(files, i).0);
        } else if f.pid() is Some {
            let stale = seq![i as usize] + rest;
            assert forall|s: int| 0 <= s < stale.len() implies i <= (#[trigger] stale[s])
                < files.len() && files[stale[s] as int].pid() is Some
                && !files[stale[s] as int].serves() by {
                if s > 0 {
                    assert(stale[s] == rest[s - 1]);
                }
            }
            assert forall|j: int|
                #![trigger files[j]]
                holder is None && i <= j < files.len() && files[j].pid() is Some implies
                stale.contains(j as usize) by {
                if j == i {
                    assert(stale[0] == i as usize);
                } else {
                    assert(rest.contains(j as usize));
                    let s = choose|s: int| 0 <= s < rest.len() && rest[s] == j as usize;
                    assert(stale[s + 1] == j as usize);
                }
            }
        }
    }
}

/// Law: a process is a console where it runs and its command says so; a file names the
/// process whose number it holds.
pub proof fn law_pid_files(f: PidFileView, n: nat, before: Seq<char>, after: Seq<char>)
    requires
        crate::text::all_space(before),
        crate::text::all_space(after),
        n <= u32::MAX,
    ensures
        f.serves() <==> f.alive && f.command is Some && occurs(f.command->0, "debug-console"@),
        f.content == Some(before + decimal(n) + after) ==> f.pid() == Some(n),
        f.content is None ==> f.pid() is None,
{
    crate::text::lemma_decimal_digits(n);
    crate::text::law_parse_unsigned(n, u32::MAX as nat);
    let d = decimal(n);
    assert(crate::text::is_digit(d[0]) && crate::text::is_digit(d.last()));
    crate::text::law_trim(before, d, after);
}

/// Law: a lock is taken where its file could be created; otherwise it is looked at again,
/// and the failure is counted.
pub proof fn law_creating_a_lock(a: &mut LockAttempt, ok: bool, r: LockStep)
    requires
        call_ensures(LockAttempt::created, (a, ok), r),
    ensures
        r == LockStep::Taken <==> ok,
        r == LockStep::Look <==> !ok,
        ok ==> final(a).failed == old(a).failed && !final(a).raced,
        !ok ==> final(a).failed == old(a).failed + 1 && final(a).raced,
{
}

} // verus!
