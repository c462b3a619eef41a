//! Shim mode: replace the identities of an `age` command line by a source from
//! which it reads the key.

use vstd::prelude::*;

use crate::text;
use crate::text::{decimal_text, same_text, signed_decimal_text, starts_with};

verus! {

/// An identity flag whose value is the next argument.
pub open spec fn identity_flag(arg: Seq<char>) -> bool {
    arg == "-i"@ || arg == "--identity"@
}

/// An identity flag that carries its value in the same argument.
pub open spec fn inline_identity(arg: Seq<char>) -> bool {
    "-i="@.is_prefix_of(arg) || "--identity="@.is_prefix_of(arg)
}

/// An argument that names an identity file, in any form.
pub open spec fn names_identity(arg: Seq<char>) -> bool {
    identity_flag(arg) || inline_identity(arg)
}

/// The position of the first argument that names an identity file, or the
/// number of arguments where none does.
pub open spec fn identity_index(args: Seq<Seq<char>>) -> nat
    decreases args.len(),
{
    if args.len() == 0 || names_identity(args[0]) {
        0
    } else {
        1 + identity_index(args.skip(1))
    }
}

/// Whether some argument names an identity file.
pub open spec fn has_identity(args: Seq<Seq<char>>) -> bool {
    exists|i: int| 0 <= i < args.len() && names_identity(#[trigger] args[i])
}

/// The arguments without the identity flags and their values.
pub open spec fn other_args(args: Seq<Seq<char>>) -> Seq<Seq<char>>
    decreases args.len(),
{
    if args.len() == 0 {
        Seq::empty()
    } else if identity_flag(args[0]) {
        if args.len() == 1 {
            Seq::empty()
        } else {
            other_args(args.skip(2))
        }
    } else if inline_identity(args[0]) {
        other_args(args.skip(1))
    } else {
        seq![args[0]] + other_args(args.skip(1))
    }
}

/// The arguments with all identity flags replaced by a single `-i source` where
/// the first of them stood.
pub open spec fn rewritten(args: Seq<Seq<char>>, source: Seq<char>) -> Seq<Seq<char>> {
    if has_identity(args) {
        let k = identity_index(args) as int;
        args.take(k) + seq!["-i"@, source] + other_args(args.skip(k))
    } else {
        args
    }
}

proof fn lemma_identity_index(args: Seq<Seq<char>>)
    ensures
        identity_index(args) <= args.len(),
        has_identity(args) <==> identity_index(args) < args.len(),
        forall|i: int| 0 <= i < identity_index(args) ==> !names_identity(#[trigger] args[i]),
        identity_index(args) < args.len() ==> names_identity(args[identity_index(args) as int]),
    decreases args.len(),
{
    if args.len() > 0 && !names_identity(args[0]) {
        let rest = args.skip(1);
        lemma_identity_index(rest);
        assert forall|i: int| 0 <= i < identity_index(args) implies !names_identity(
            #[trigger] args[i],
        ) by {
            if i > 0 {
                assert(args[i] == rest[i - 1]);
            }
        }
        if identity_index(rest) < rest.len() {
            assert(args[identity_index(args) as int] == rest[identity_index(rest) as int]);
        }
        if has_identity(args) {
            let i = choose|i: int| 0 <= i < args.len() && names_identity(#[trigger] args[i]);
            assert(rest[i - 1] == args[i]);
        }
    }
}

/// Rewrite `-i <path>` / `--identity <path>` / `--identity=<path>` arguments
/// into a single `-i <identity_source>` for pipe-based key delivery.
///
/// Returns `(has_identity, rewritten_args)`.
pub fn rewrite_identity_args(args: &[String], identity_source: &str) -> (r: (bool, Vec<String>))
    ensures
        r.0 == has_identity(text::texts(args@)),
        text::texts(r.1@) == rewritten(text::texts(args@), identity_source@),
{
    let ghost all = text::texts(args@);
    let ghost source = identity_source@;
    proof {
        lemma_identity_index(all);
        assert(all.skip(0) =~= all);
    }
    let mut found = false;
    let mut new_args: Vec<String> = Vec::new();
    let mut i: usize = 0;
    assert(text::texts(new_args@) =~= all.take(0));
    while i < args.len()
        invariant
            all == text::texts(args@),
            source == identity_source@,
            i <= args.len(),
            identity_index(all) <= all.len(),
            has_identity(all) <==> identity_index(all) < all.len(),
            found ==> has_identity(all),
            !found ==> identity_index(all) == i + identity_index(all.skip(i as int)),
            !found ==> text::texts(new_args@) == all.take(i as int),
            found ==> text::texts(new_args@) + other_args(all.skip(i as int)) == rewritten(
                all,
                source,
            ),
        decreases args.len() - i,
    {
        let ghost rest = all.skip(i as int);
        let ghost before = text::texts(new_args@);
        assert(rest.skip(1) =~= all.skip(i + 1));
        let arg = args[i].as_str();
        assert(rest[0] == arg@);
        let separate = same_text(arg, "-i") || same_text(arg, "--identity");
        if separate || starts_with(arg, "-i=") || starts_with(arg, "--identity=") {
            if !found {
                new_args.push("-i".to_owned());
                new_args.push(identity_source.to_owned());
                assert(text::texts(new_args@) =~= before + seq!["-i"@, source]);
                found = true;
            }
            if separate {
                if args.len() - i > 1 {
                    assert(rest.skip(2) =~= all.skip(i + 2));
                    i = i + 2;
                } else {
                    i = i + 1;
                    assert(other_args(all.skip(i as int)) =~= Seq::<Seq<char>>::empty());
                }
            } else {
                i = i + 1;
            }
        } else {
            new_args.push(args[i].clone());
            assert(text::texts(new_args@) =~= before.push(arg@));
            assert(before + (seq![arg@] + other_args(all.skip(i + 1))) =~= before.push(arg@)
                + other_args(all.skip(i + 1)));
            assert(all.take(i + 1) =~= all.take(i as int).push(arg@));
            i = i + 1;
        }
    }
    assert(text::texts(new_args@) + other_args(all.skip(i as int)) =~= text::texts(new_args@));
    assert(all.take(all.len() as int) =~= all);
    (found, new_args)
}

/// What to run in shim mode.
pub enum ShimStep {
    /// Replace this process with the real `age`, with the given arguments.
    ExecAge,
    /// Deliver this age key to the real `age`.
    Deliver(String),
}

/// The key that shim mode delivers, by the value of the age key variable: one
/// that is set and not empty.
pub open spec fn delivered(age_key: Option<Seq<char>>) -> Option<Seq<char>> {
    match age_key {
        Some(key) => if key.len() > 0 {
            Some(key)
        } else {
            None
        },
        None => None,
    }
}

/// Decide how to run in shim mode from the value of the age key variable.
///
/// A key that is set and not empty is delivered; otherwise the real `age` is
/// executed directly.
pub fn run(age_key: Option<String>) -> (r: ShimStep)
    ensures
        match r {
            ShimStep::ExecAge => delivered(text::opt_string(age_key)) is None,
            ShimStep::Deliver(key) => delivered(text::opt_string(age_key)) == Some(key@),
        },
{
    match age_key {
        Some(key) => if key.as_str().is_empty() {
            ShimStep::ExecAge
        } else {
            ShimStep::Deliver(key)
        },
        None => ShimStep::ExecAge,
    }
}

/// How the real `age` is to be started once a key source is open.
pub enum Delivery {
    /// No identity flag was given: close the source and replace this process
    /// with `age`, with the original arguments.
    ExecAge,
    /// Start `age` with these arguments, which read the identity from the
    /// source.
    Spawn(Vec<String>),
}

/// Decide how to start `age` when its key can be read from `identity_source`.
pub fn deliver_key(args: &[String], identity_source: &str) -> (r: Delivery)
    ensures
        match r {
            Delivery::ExecAge => !has_identity(text::texts(args@)),
            Delivery::Spawn(new_args) => {
                &&& has_identity(text::texts(args@))
                &&& text::texts(new_args@) == rewritten(text::texts(args@), identity_source@)
            },
        },
{
    let (found, new_args) = rewrite_identity_args(args, identity_source);
    if found {
        Delivery::Spawn(new_args)
    } else {
        Delivery::ExecAge
    }
}

/// What is written to the key source: the key and a line feed, one after the
/// other. The key is borrowed, so that no copy of it is left behind.
pub fn key_line(age_key: &str) -> (r: (&str, &str))
    ensures
        r.0@ + r.1@ == age_key@.push('\n'),
{
    proof {
        reveal_strlit("\n");
    }
    assert(age_key@ + "\n"@ =~= age_key@.push('\n'));
    (age_key, "\n")
}

/// The path by which a child process reads an inherited file descriptor.
pub fn fd_path(fd: i32) -> (r: String)
    ensures
        r@ == "/dev/fd/"@ + text::signed_decimal(fd as int),
{
    let mut path = "/dev/fd/".to_owned();
    path.append(signed_decimal_text(fd).as_str());
    path
}

/// The name of the pipe of process `pid` with the random part `random`.
pub open spec fn pipe_name(pid: nat, random: nat) -> Seq<char> {
    "\\\\.\\pipe\\chezmage-"@ + text::decimal(pid) + "-"@ + text::decimal(random)
}

/// Generate a Named Pipe name from the process id and a random value.
///
/// Format: `\\.\pipe\chezmage-{pid}-{random}`
pub fn generate_pipe_name(pid: u32, random: u64) -> (r: String)
    ensures
        r@ == pipe_name(pid as nat, random as nat),
{
    let mut name = "\\\\.\\pipe\\chezmage-".to_owned();
    name.append(decimal_text(pid as u64).as_str());
    name.append("-");
    name.append(decimal_text(random).as_str());
    name
}

/// The UTF-16 code units of a character.
pub open spec fn utf16_units(c: char) -> Seq<u16> {
    let code = c as u32;
    if code < 0x1_0000 {
        seq![code as u16]
    } else {
        seq![
            (0xD800 + (code - 0x1_0000) / 0x400) as u16,
            (0xDC00 + (code - 0x1_0000) % 0x400) as u16,
        ]
    }
}

/// A text in UTF-16.
pub open spec fn utf16(s: Seq<char>) -> Seq<u16>
    decreases s.len(),
{
    if s.len() == 0 {
        Seq::empty()
    } else {
        utf16(s.drop_last()) + utf16_units(s.last())
    }
}

/// A pipe name as the system takes it: in UTF-16, with a null at the end.
pub fn wide_name(name: &str) -> (r: Vec<u16>)
    ensures
        r@ == utf16(name@).push(0u16),
{
    let mut out: Vec<u16> = Vec::new();
    for c in it: name.chars()
        invariant
            it.seq() == name@,
            out@ == utf16(name@.take(it.index() as int)),
    {
        let ghost before = out@;
        assert(name@.take(it.index() + 1).drop_last() =~= name@.take(it.index() as int));
        let code: u32 = c as u32;
        if code < 0x1_0000 {
            out.push(code as u16);
        } else {
            let above: u32 = code - 0x1_0000;
            out.push((0xD800 + above / 0x400) as u16);
            out.push((0xDC00 + above % 0x400) as u16);
        }
        assert(out@ =~= before + utf16_units(c));
    }
    assert(name@.take(name@.len() as int) =~= name@);
    out.push(0);
    out
}

/// The system error that says a client connected before the server waited for
/// one.
pub const ERROR_PIPE_CONNECTED: i32 = 535;

/// Whether a client is connected to a pipe, from the result of waiting for one
/// and the system error that came with it.
pub fn client_connected(ret: i32, os_error: Option<i32>) -> (r: bool)
    ensures
        r == (ret != 0 || os_error == Some(ERROR_PIPE_CONNECTED)),
{
    if ret != 0 {
        true
    } else {
        match os_error {
            Some(code) => code == ERROR_PIPE_CONNECTED,
            None => false,
        }
    }
}

/// What happened while the key is served on a named pipe.
#[derive(Debug, Clone, Copy, PartialEq, Eq, Structural)]
pub enum ServeEvent {
    /// The pipe was created.
    Created,
    /// Waiting for a client gave this result, and the system error with it.
    Waited {
        /// The result, 0 where the call failed.
        ret: i32,
        /// The system error.
        os_error: Option<i32>,
    },
    /// The key was written, or could not be.
    Wrote {
        /// Whether it was.
        ok: bool,
    },
    /// Flushing the pipe gave this result, 0 where the call failed.
    Flushed {
        /// The result.
        ret: i32,
    },
}

/// Why the key was not delivered on a named pipe.
#[derive(Debug, Clone, Copy, PartialEq, Eq, Structural)]
pub enum ServeError {
    /// No client connected.
    NotConnected,
    /// The key could not be written.
    NotWritten,
    /// The key was written, but the client may not have got it.
    NotFlushed,
}

impl ServeError {
    /// The text of the error; the system error follows it.
    pub open spec fn text(self) -> Seq<char> {
        match self {
            ServeError::NotConnected => "ConnectNamedPipe failed"@,
            ServeError::NotWritten => "failed to write key to named pipe"@,
            ServeError::NotFlushed => "FlushFileBuffers failed"@,
        }
    }

    /// The error as a message for the user; the system error follows it.
    pub fn message(&self) -> (r: String)
        ensures
            r@ == self.text(),
    {
        match self {
            ServeError::NotConnected => "ConnectNamedPipe failed".to_owned(),
            ServeError::NotWritten => "failed to write key to named pipe".to_owned(),
            ServeError::NotFlushed => "FlushFileBuffers failed".to_owned(),
        }
    }
}

/// What to do next while the key is served on a named pipe.
#[derive(Debug, Clone, Copy, PartialEq, Eq, Structural)]
pub enum ServeAction {
    /// Wait for a client.
    Wait,
    /// Write the key.
    Write,
    /// Flush the pipe, so that all data reaches the client.
    Flush,
    /// Close the pipe; the key is delivered.
    Close,
    /// Close the pipe and report the error.
    Fail(ServeError),
}

/// What to do next while the key is served on a named pipe: wait, write, flush
/// and close, in this order; whatever fails ends it with its error.
pub open spec fn next_serve(event: ServeEvent) -> ServeAction {
    match event {
        ServeEvent::Created => ServeAction::Wait,
        ServeEvent::Waited { ret, os_error } => if ret != 0 || os_error == Some(
            ERROR_PIPE_CONNECTED,
        ) {
            ServeAction::Write
        } else {
            ServeAction::Fail(ServeError::NotConnected)
        },
        ServeEvent::Wrote { ok } => if ok {
            ServeAction::Flush
        } else {
            ServeAction::Fail(ServeError::NotWritten)
        },
        ServeEvent::Flushed { ret } => if ret != 0 {
            ServeAction::Close
        } else {
            ServeAction::Fail(ServeError::NotFlushed)
        },
    }
}

/// Decide what to do next while the key is served on a named pipe.
pub fn serve_key_on_pipe(event: ServeEvent) -> (r: ServeAction)
    ensures
        r == next_serve(event),
{
    match event {
        ServeEvent::Created => ServeAction::Wait,
        ServeEvent::Waited { ret, os_error } => if client_connected(ret, os_error) {
            ServeAction::Write
        } else {
            ServeAction::Fail(ServeError::NotConnected)
        },
        ServeEvent::Wrote { ok } => if ok {
            ServeAction::Flush
        } else {
            ServeAction::Fail(ServeError::NotWritten)
        },
        ServeEvent::Flushed { ret } => if ret != 0 {
            ServeAction::Close
        } else {
            ServeAction::Fail(ServeError::NotFlushed)
        },
    }
}

/// The exit code to pass on: that of the child, or 1 where it has none.
pub fn exit_code(code: Option<i32>) -> (r: i32)
    ensures
        r == (match code {
            Some(c) => c,
            None => 1,
        }),
{
    match code {
        Some(c) => c,
        None => 1,
    }
}

proof fn lemma_other_args_name_none(args: Seq<Seq<char>>)
    ensures
        forall|i: int| 0 <= i < other_args(args).len() ==> !names_identity(#[trigger] other_args(args)[i]),
    decreases args.len(),
{
    if args.len() == 0 {
    } else if identity_flag(args[0]) {
        if args.len() > 1 {
            lemma_other_args_name_none(args.skip(2));
            assert(other_args(args) == other_args(args.skip(2)));
        }
    } else if inline_identity(args[0]) {
        lemma_other_args_name_none(args.skip(1));
        assert(other_args(args) == other_args(args.skip(1)));
    } else {
        lemma_other_args_name_none(args.skip(1));
        let rest = other_args(args.skip(1));
        assert forall|i: int| 0 <= i < other_args(args).len() implies !names_identity(
            #[trigger] other_args(args)[i],
        ) by {
            if i > 0 {
                assert(other_args(args)[i] == rest[i - 1]);
            } else {
                assert(other_args(args)[i] == args[0]);
            }
        }
    }
}

/// Arguments that name no identity file are passed over unchanged.
proof fn lemma_other_args_after(front: Seq<Seq<char>>, rest: Seq<Seq<char>>)
    requires
        forall|i: int| 0 <= i < front.len() ==> !names_identity(#[trigger] front[i]),
    ensures
        other_args(front + rest) == front + other_args(rest),
    decreases front.len(),
{
    if front.len() == 0 {
        assert(front + rest =~= rest);
        assert(front + other_args(rest) =~= other_args(rest));
    } else {
        assert((front + rest)[0] == front[0]);
        assert(!names_identity(front[0]));
        assert((front + rest).skip(1) =~= front.skip(1) + rest);
        assert forall|i: int| 0 <= i < front.skip(1).len() implies !names_identity(
            #[trigger] front.skip(1)[i],
        ) by {
            assert(front.skip(1)[i] == front[i + 1]);
        }
        lemma_other_args_after(front.skip(1), rest);
        assert(seq![front[0]] + (front.skip(1) + other_args(rest)) =~= front + other_args(rest));
    }
}

/// What `rewritten` is made of where an identity is named.
proof fn lemma_rewritten_parts(args: Seq<Seq<char>>, source: Seq<char>)
    requires
        has_identity(args),
    ensures
        ({
            let k = identity_index(args) as int;
            let out = rewritten(args, source);
            &&& k < args.len()
            &&& other_args(args) == args.take(k) + other_args(args.skip(k))
            &&& out.take(k) == args.take(k)
            &&& out.len() == other_args(args).len() + 2
            &&& out[k] == "-i"@
            &&& out[k + 1] == source
            &&& out.skip(k + 2) == other_args(args.skip(k))
            &&& forall|i: int|
                0 <= i < out.len() && i != k && i != k + 1 ==> !names_identity(#[trigger] out[i])
        }),
{
    let k = identity_index(args) as int;
    let out = rewritten(args, source);
    lemma_identity_index(args);
    let front = args.take(k);
    let rest = other_args(args.skip(k));
    assert(front + args.skip(k) =~= args);
    lemma_other_args_after(front, args.skip(k));
    lemma_other_args_name_none(args.skip(k));
    assert(out.take(k) =~= front);
    assert(out.skip(k + 2) =~= rest);
    assert forall|i: int|
        0 <= i < out.len() && i != k && i != k + 1 implies !names_identity(#[trigger] out[i]) by {
        if i < k {
            assert(out[i] == args[i]);
        } else {
            assert(out[i] == rest[i - k - 2]);
        }
    }
}

/// Rewriting leaves every other argument in place: without identity flags, the
/// arguments before and after are the same, in the same order.
pub proof fn law_rewrite_keeps_other_args(args: Seq<Seq<char>>, source: Seq<char>)
    ensures
        other_args(rewritten(args, source)) == other_args(args),
{
    if has_identity(args) {
        lemma_rewritten_parts(args, source);
        let k = identity_index(args) as int;
        let out = rewritten(args, source);
        assert(out =~= out.take(k) + out.skip(k));
        lemma_identity_index(args);
        lemma_other_args_after(out.take(k), out.skip(k));
        let tail = out.skip(k);
        assert(tail[0] == "-i"@);
        assert(tail.skip(2) =~= out.skip(k + 2));
        let rest = other_args(args.skip(k));
        lemma_other_args_name_none(args.skip(k));
        lemma_other_args_after(rest, Seq::<Seq<char>>::empty());
        assert(rest + Seq::<Seq<char>>::empty() =~= rest);
    }
}

/// The key source is the only identity left: after rewriting, one `-i` stands
/// where the first identity was named, its value is the source, and no other
/// argument names an identity.
pub proof fn law_rewrite_leaves_one_identity(args: Seq<Seq<char>>, source: Seq<char>)
    requires
        has_identity(args),
    ensures
        ({
            let k = identity_index(args) as int;
            let out = rewritten(args, source);
            &&& k + 1 < out.len()
            &&& out[k] == "-i"@
            &&& out[k + 1] == source
            &&& forall|i: int|
                0 <= i < out.len() && i != k && i != k + 1 ==> !names_identity(#[trigger] out[i])
        }),
{
    lemma_rewritten_parts(args, source);
}

/// Without identity flags nothing changes: all arguments are other arguments,
/// and they stay as they are.
pub proof fn law_rewrite_without_identity(args: Seq<Seq<char>>, source: Seq<char>)
    requires
        !has_identity(args),
    ensures
        other_args(args) == args,
        rewritten(args, source) == args,
{
    let none = Seq::<Seq<char>>::empty();
    assert forall|i: int| 0 <= i < args.len() implies !names_identity(#[trigger] args[i]) by {
        assert(has_identity(args) || !names_identity(args[i]));
    }
    lemma_other_args_after(args, none);
    assert(args + none =~= args);
    assert(args + other_args(none) =~= args);
}

/// Rewriting again with the same source changes nothing more.
pub proof fn law_rewrite_idempotent(args: Seq<Seq<char>>, source: Seq<char>)
    ensures
        rewritten(rewritten(args, source), source) == rewritten(args, source),
{
    if has_identity(args) {
        lemma_rewritten_parts(args, source);
        lemma_identity_index(args);
        let k = identity_index(args) as int;
        let out = rewritten(args, source);
        assert(names_identity(out[k]));
        assert(has_identity(out));
        lemma_identity_index(out);
        let m = identity_index(out) as int;
        assert(m <= k);
        if m < k {
            assert(out[m] == args[m]);
        }
        assert(m == k);
        let tail = out.skip(k);
        assert(tail[0] == "-i"@);
        assert(tail.skip(2) =~= out.skip(k + 2));
        let rest = other_args(args.skip(k));
        lemma_other_args_name_none(args.skip(k));
        lemma_other_args_after(rest, Seq::<Seq<char>>::empty());
        assert(rest + Seq::<Seq<char>>::empty() =~= rest);
        assert(out.take(k) + seq!["-i"@, source] + rest =~= out);
    }
}

/// Two pipe names are the same only where both the process id and the random
/// part are.
pub proof fn law_pipe_names_injective(pid_a: nat, random_a: nat, pid_b: nat, random_b: nat)
    requires
        pipe_name(pid_a, random_a) == pipe_name(pid_b, random_b),
    ensures
        pid_a == pid_b,
        random_a == random_b,
{
    reveal_strlit("-");
    let lead = "\\\\.\\pipe\\chezmage-"@;
    let a = text::decimal(pid_a);
    let b = text::decimal(pid_b);
    let x = text::decimal(random_a);
    let y = text::decimal(random_b);
    let name = pipe_name(pid_a, random_a);
    let other = pipe_name(pid_b, random_b);
    let n = lead.len() as int;
    text::lemma_decimal_no_hyphen(pid_a);
    text::lemma_decimal_no_hyphen(pid_b);
    if a.len() < b.len() {
        assert(name[n + a.len()] == '-');
        assert(other[n + a.len()] == b[a.len() as int]);
        assert(false);
    }
    if b.len() < a.len() {
        assert(other[n + b.len()] == '-');
        assert(name[n + b.len()] == a[b.len() as int]);
        assert(false);
    }
    assert(a =~= name.subrange(n, n + a.len()));
    assert(b =~= other.subrange(n, n + b.len()));
    text::lemma_decimal_injective(pid_a, pid_b);
    assert(x =~= name.skip(n + a.len() + 1));
    assert(y =~= other.skip(n + b.len() + 1));
    text::lemma_decimal_injective(random_a, random_b);
}

/// Whether an argument has nothing to do with identities: it is neither `-i` nor
/// `--identity`, and begins with neither `-i=` nor `--identity=`.
pub open spec fn unrelated(arg: Seq<char>) -> bool {
    &&& arg != "-i"@
    &&& arg != "--identity"@
    &&& !"-i="@.is_prefix_of(arg)
    &&& !"--identity="@.is_prefix_of(arg)
}

/// Whether the argument at position `i` is the value of an identity flag: the
/// one before it is `-i` or `--identity`, and is not such a value itself.
pub open spec fn is_identity_value(args: Seq<Seq<char>>, i: int) -> bool
    decreases i,
{
    &&& i > 0
    &&& args[i - 1] == "-i"@ || args[i - 1] == "--identity"@
    &&& !is_identity_value(args, i - 1)
}

/// The arguments among the first `n` that have nothing to do with identities,
/// in order.
pub open spec fn unrelated_args(args: Seq<Seq<char>>, n: int) -> Seq<Seq<char>>
    decreases n,
{
    if n <= 0 {
        Seq::empty()
    } else if unrelated(args[n - 1]) && !is_identity_value(args, n - 1) {
        unrelated_args(args, n - 1).push(args[n - 1])
    } else {
        unrelated_args(args, n - 1)
    }
}

proof fn lemma_unrelated_args(args: Seq<Seq<char>>, i: int)
    requires
        0 <= i <= args.len(),
        !is_identity_value(args, i),
    ensures
        unrelated_args(args, args.len() as int) == unrelated_args(args, i) + other_args(
            args.skip(i),
        ),
    decreases args.len() - i,
{
    let rest = args.skip(i);
    if i == args.len() {
        assert(unrelated_args(args, i) + other_args(rest) =~= unrelated_args(args, i));
    } else {
        assert(rest[0] == args[i]);
        assert(rest.skip(1) =~= args.skip(i + 1));
        if identity_flag(args[i]) {
            assert(unrelated_args(args, i + 1) == unrelated_args(args, i));
            if i + 1 == args.len() {
                assert(unrelated_args(args, i) + other_args(rest) =~= unrelated_args(args, i));
            } else {
                assert(rest.skip(2) =~= args.skip(i + 2));
                assert(is_identity_value(args, i + 1));
                assert(unrelated_args(args, i + 2) == unrelated_args(args, i + 1));
                lemma_unrelated_args(args, i + 2);
            }
        } else if inline_identity(args[i]) {
            assert(unrelated_args(args, i + 1) == unrelated_args(args, i));
            lemma_unrelated_args(args, i + 1);
        } else {
            assert(unrelated_args(args, i + 1) == unrelated_args(args, i).push(args[i]));
            lemma_unrelated_args(args, i + 1);
            assert(unrelated_args(args, i).push(args[i]) + other_args(args.skip(i + 1))
                =~= unrelated_args(args, i) + (seq![args[i]] + other_args(args.skip(i + 1))));
        }
    }
}

proof fn lemma_all_unrelated(args: Seq<Seq<char>>)
    requires
        forall|j: int| 0 <= j < args.len() ==> unrelated(#[trigger] args[j]),
    ensures
        other_args(args) == args,
{
    let none = Seq::<Seq<char>>::empty();
    assert forall|i: int| 0 <= i < args.len() implies !names_identity(#[trigger] args[i]) by {
        assert(unrelated(args[i]));
    }
    lemma_other_args_after(args, none);
    assert(args + none =~= args);
    assert(args + other_args(none) =~= args);
}

proof fn lemma_first_identity(args: Seq<Seq<char>>, k: int)
    requires
        0 <= k <= args.len(),
        forall|j: int| 0 <= j < k ==> unrelated(#[trigger] args[j]),
        k < args.len() ==> !unrelated(args[k]),
    ensures
        identity_index(args) == k,
        has_identity(args) <==> k < args.len(),
{
    lemma_identity_index(args);
    let m = identity_index(args) as int;
    if m < k {
        assert(unrelated(args[m]));
    }
    if k < m {
        assert(!names_identity(args[k]));
    }
}

/// Identities are replaced and everything else is kept: an argument names an
/// identity if and only if it is `-i` or `--identity`, with the next argument as
/// its value, or begins with `-i=` or `--identity=`. Where the first of these
/// stands, `-i` and the source come; every argument that is none of them, nor
/// the value of one, is kept in order, and without any of them nothing changes.
pub proof fn law_rewrite_replaces_identities_only(
    args: &[String],
    identity_source: &str,
    k: int,
    r: (bool, Vec<String>),
)
    requires
        call_ensures(rewrite_identity_args, (args, identity_source), r),
        0 <= k <= args@.len(),
        forall|j: int| 0 <= j < k ==> unrelated((#[trigger] args@[j])@),
        k < args@.len() ==> !unrelated(args@[k]@),
    ensures
        ({
            let all = text::texts(args@);
            let n = all.len() as int;
            &&& r.0 == (k < n)
            &&& k == n ==> text::texts(r.1@) == all
            &&& k < n ==> text::texts(r.1@) == all.take(k) + seq!["-i"@, identity_source@]
                + unrelated_args(all, n).skip(k)
            &&& unrelated_args(all, n).take(k) == all.take(k)
        }),
{
    let all = text::texts(args@);
    let n = all.len() as int;
    text::law_texts_are_views(args@);
    assert forall|j: int| 0 <= j < k implies unrelated(#[trigger] all[j]) by {
        assert(all[j] == args@[j]@);
    }
    if k < n {
        assert(all[k] == args@[k]@);
    }
    lemma_first_identity(all, k);
    lemma_unrelated_args(all, 0);
    assert(all.skip(0) =~= all);
    assert(unrelated_args(all, 0) + other_args(all) =~= other_args(all));
    assert forall|i: int| 0 <= i < k implies !names_identity(#[trigger] all.take(k)[i]) by {
        assert(unrelated(all[i]));
    }
    lemma_other_args_after(all.take(k), all.skip(k));
    assert(all.take(k) + all.skip(k) =~= all);
    assert(other_args(all).take(k) =~= all.take(k));
    assert(other_args(all).skip(k) =~= other_args(all.skip(k)));
}

/// A single identity is replaced where it stands: with `-i` or `--identity` at
/// position `k`, its value after it, and no other argument that names an
/// identity, exactly these two are replaced by `-i` and the source.
pub proof fn law_rewrite_single_identity(
    args: &[String],
    identity_source: &str,
    k: int,
    r: (bool, Vec<String>),
)
    requires
        call_ensures(rewrite_identity_args, (args, identity_source), r),
        0 <= k < args@.len() - 1,
        args@[k]@ == "-i"@ || args@[k]@ == "--identity"@,
        forall|j: int|
            0 <= j < args@.len() && j != k && j != k + 1 ==> {
                &&& (#[trigger] args@[j])@ != "-i"@
                &&& args@[j]@ != "--identity"@
                &&& !"-i="@.is_prefix_of(args@[j]@)
                &&& !"--identity="@.is_prefix_of(args@[j]@)
            },
    ensures
        r.0,
        text::texts(r.1@) == text::texts(args@).take(k) + seq!["-i"@, identity_source@]
            + text::texts(args@).skip(k + 2),
{
    let all = text::texts(args@);
    text::law_texts_are_views(args@);
    assert forall|j: int| 0 <= j < all.len() && j != k && j != k + 1 implies unrelated(
        #[trigger] all[j],
    ) by {
        assert(all[j] == args@[j]@);
    }
    assert(all[k] == args@[k]@);
    lemma_first_identity(all, k);
    let rest = all.skip(k);
    let tail = all.skip(k + 2);
    assert(rest[0] == all[k]);
    assert(rest.skip(2) =~= tail);
    assert forall|j: int| 0 <= j < tail.len() implies unrelated(#[trigger] tail[j]) by {
        assert(tail[j] == all[j + k + 2]);
    }
    lemma_all_unrelated(tail);
}

/// A single identity that carries its value is replaced where it stands: with
/// an argument at position `k` that begins with `-i=` or `--identity=`, and no
/// other that names an identity, exactly this one is replaced.
pub proof fn law_rewrite_single_inline_identity(
    args: &[String],
    identity_source: &str,
    k: int,
    value: Seq<char>,
    r: (bool, Vec<String>),
)
    requires
        call_ensures(rewrite_identity_args, (args, identity_source), r),
        0 <= k < args@.len(),
        args@[k]@ == "-i="@ + value || args@[k]@ == "--identity="@ + value,
        forall|j: int| 0 <= j < args@.len() && j != k ==> unrelated((#[trigger] args@[j])@),
    ensures
        r.0,
        text::texts(r.1@) == text::texts(args@).take(k) + seq!["-i"@, identity_source@]
            + text::texts(args@).skip(k + 1),
{
    let all = text::texts(args@);
    text::law_texts_are_views(args@);
    reveal_strlit("-i");
    reveal_strlit("--identity");
    reveal_strlit("-i=");
    reveal_strlit("--identity=");
    assert forall|j: int| 0 <= j < all.len() && j != k implies unrelated(#[trigger] all[j]) by {
        assert(all[j] == args@[j]@);
    }
    let arg = all[k];
    assert(arg == args@[k]@);
    if arg == "-i="@ + value {
        assert("-i="@ =~= arg.subrange(0, "-i="@.len() as int));
        assert(arg.len() >= 3);
        assert(arg[1] == 'i');
    } else {
        assert("--identity="@ =~= arg.subrange(0, "--identity="@.len() as int));
        assert(arg.len() >= 11);
    }
    assert(!unrelated(arg));
    if arg == "--identity"@ {
        assert(arg.len() == 10);
        assert("--identity"@[1] == '-');
    }
    assert(!identity_flag(arg));
    lemma_first_identity(all, k);
    let rest = all.skip(k);
    let tail = all.skip(k + 1);
    assert(rest[0] == arg);
    assert(rest.skip(1) =~= tail);
    assert forall|j: int| 0 <= j < tail.len() implies unrelated(#[trigger] tail[j]) by {
        assert(tail[j] == all[j + k + 1]);
    }
    lemma_all_unrelated(tail);
}

/// An `age` without identities gets its arguments as they are, and one with an
/// identity those that rewriting gives.
pub proof fn law_delivery_rewrites(
    args: &[String],
    identity_source: &str,
    r: Delivery,
    rewrite: (bool, Vec<String>),
)
    requires
        call_ensures(deliver_key, (args, identity_source), r),
        call_ensures(rewrite_identity_args, (args, identity_source), rewrite),
    ensures
        r is Spawn <==> rewrite.0,
        r is Spawn ==> text::texts(r->Spawn_0@) == text::texts(rewrite.1@),
        r is ExecAge <==> forall|j: int| 0 <= j < args@.len() ==> unrelated((#[trigger] args@[j])@),
{
    let all = text::texts(args@);
    text::law_texts_are_views(args@);
    if has_identity(all) {
        let i = choose|i: int| 0 <= i < all.len() && names_identity(#[trigger] all[i]);
        assert(all[i] == args@[i]@);
        assert(!unrelated(args@[i]@));
    } else {
        assert forall|j: int| 0 <= j < args@.len() implies unrelated((#[trigger] args@[j])@) by {
            assert(all[j] == args@[j]@);
            assert(!names_identity(all[j]));
        }
    }
}

/// Exactly a key that is set and not empty is delivered, unchanged.
pub proof fn law_set_key_is_delivered(age_key: Option<String>, r: ShimStep)
    requires
        call_ensures(run, (age_key,), r),
    ensures
        age_key is None ==> r is ExecAge,
        age_key is Some ==> (r is ExecAge <==> age_key->0@ == Seq::<char>::empty()),
        r is Deliver ==> age_key is Some && r->Deliver_0@ == age_key->0@,
{
    if age_key is Some && age_key->0@.len() == 0 {
        assert(age_key->0@ =~= Seq::<char>::empty());
    }
}

/// The key goes out whole, with one line feed after it.
pub proof fn law_key_line(age_key: &str, r: (&str, &str))
    requires
        call_ensures(key_line, (age_key,), r),
    ensures
        (r.0@ + r.1@).len() == age_key@.len() + 1,
        (r.0@ + r.1@).take(age_key@.len() as int) == age_key@,
        (r.0@ + r.1@).last() == '\n',
{
    assert((r.0@ + r.1@).take(age_key@.len() as int) =~= age_key@);
}

/// The path of a descriptor is its number under `/dev/fd/`.
pub proof fn law_fd_path(fd: i32, r: String)
    requires
        call_ensures(fd_path, (fd,), r),
        fd >= 0,
    ensures
        "/dev/fd/"@.is_prefix_of(r@),
        text::digits_value(r@.skip(8)) == fd,
{
    reveal_strlit("/dev/fd/");
    text::law_signed_decimal_value(fd as int);
    assert("/dev/fd/"@ =~= r@.subrange(0, 8));
    assert(r@.skip(8) =~= text::signed_decimal(fd as int));
}

/// A pipe name is the local pipe directory, the program, the process id and the
/// random part.
pub proof fn law_pipe_name_parts(pid: u32, random: u64, r: String)
    requires
        call_ensures(generate_pipe_name, (pid, random), r),
    ensures
        exists|a: Seq<char>, b: Seq<char>|
            {
                &&& r@ == "\\\\.\\pipe\\chezmage-"@ + a + seq!['-'] + b
                &&& #[trigger] text::digits_value(a) == pid
                &&& #[trigger] text::digits_value(b) == random
            },
{
    reveal_strlit("-");
    assert("-"@ =~= seq!['-']);
    let a = text::decimal(pid as nat);
    let b = text::decimal(random as nat);
    text::law_decimal_value(pid as nat);
    text::law_decimal_value(random as nat);
    assert(text::digits_value(a) == pid);
    assert(text::digits_value(b) == random);
}

/// The UTF-16 units of a character stand for it: one unit is its code, two are a
/// high and a low surrogate that together hold a code beyond the first plane.
pub proof fn law_utf16_units(c: char)
    ensures
        (c as u32) < 0x1_0000 ==> utf16_units(c).len() == 1 && utf16_units(c)[0] == c as u32,
        (c as u32) >= 0x1_0000 ==> {
            let u = utf16_units(c);
            &&& u.len() == 2
            &&& 0xD800 <= u[0] <= 0xDBFF
            &&& 0xDC00 <= u[1] <= 0xDFFF
            &&& 0x1_0000 + (u[0] - 0xD800) * 0x400 + (u[1] - 0xDC00) == c as u32
        },
{
}

/// A pipe name is handed to the system in UTF-16, character by character, with
/// one null at the end.
pub proof fn law_wide_name(a: Seq<char>, c: char, name: &str, r: Vec<u16>)
    requires
        call_ensures(wide_name, (name,), r),
    ensures
        r@.last() == 0,
        r@.drop_last() == utf16(name@),
        utf16(Seq::empty()) == Seq::<u16>::empty(),
        utf16(a.push(c)) == utf16(a) + utf16_units(c),
{
    assert(r@.drop_last() =~= utf16(name@));
    assert(a.push(c).drop_last() =~= a);
}

/// The key counts as delivered only after a client connected, the key was
/// written and the pipe flushed, each in turn; whatever fails is reported as
/// such. A client that connected before it was waited for is connected.
pub proof fn law_serving_the_key(
    ret: i32,
    os_error: Option<i32>,
    ok: bool,
    created: ServeAction,
    waited: ServeAction,
    wrote: ServeAction,
    flushed: ServeAction,
)
    requires
        call_ensures(serve_key_on_pipe, (ServeEvent::Created,), created),
        call_ensures(serve_key_on_pipe, (ServeEvent::Waited { ret, os_error },), waited),
        call_ensures(serve_key_on_pipe, (ServeEvent::Wrote { ok },), wrote),
        call_ensures(serve_key_on_pipe, (ServeEvent::Flushed { ret },), flushed),
    ensures
        created is Wait,
        ret != 0 || os_error == Some(535i32) ==> waited is Write,
        ret == 0 && os_error != Some(535i32) ==> waited == ServeAction::Fail(
            ServeError::NotConnected,
        ),
        ok ==> wrote is Flush,
        !ok ==> wrote == ServeAction::Fail(ServeError::NotWritten),
        ret != 0 ==> flushed is Close,
        ret == 0 ==> flushed == ServeAction::Fail(ServeError::NotFlushed),
{
}

/// The exit code of the child is passed on as it is, and 1 where there is none.
pub proof fn law_exit_code(code: i32, r: i32, without: i32)
    requires
        call_ensures(exit_code, (Some(code),), r),
        call_ensures(exit_code, (None::<i32>,), without),
    ensures
        r == code,
        without == 1,
{
}

} // verus!
