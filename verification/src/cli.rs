//! The choice between the two modes of the program.

use vstd::prelude::*;

use crate::text;
use crate::text::same_text;

verus! {

/// The mode that a command line asks for.
pub enum Mode {
    /// Deliver the key to `age`, which gets these arguments.
    Shim(Vec<String>),
    /// Decrypt the identities and run chezmoi with all arguments.
    Wrapper,
}

/// The position of the first `--shim`, or the number of arguments where there
/// is none.
pub open spec fn shim_index(args: Seq<Seq<char>>) -> nat
    decreases args.len(),
{
    if args.len() == 0 || args[0] == "--shim"@ {
        0
    } else {
        1 + shim_index(args.skip(1))
    }
}

/// The mode for the given arguments: with `--shim` anywhere among them, shim
/// mode with the other arguments; otherwise wrapper mode. Only the first
/// `--shim` is taken out.
pub fn choose_mode(raw_args: Vec<String>) -> (r: Mode)
    ensures
        ({
            let args = text::texts(raw_args@);
            let k = shim_index(args) as int;
            if k < args.len() {
                r matches Mode::Shim(rest) && text::texts(rest@) == args.remove(k)
            } else {
                r is Wrapper
            }
        }),
{
    let ghost args = text::texts(raw_args@);
    assert(args.skip(0) =~= args);
    for i in 0..raw_args.len()
        invariant
            args == text::texts(raw_args@),
            shim_index(args) == i + shim_index(args.skip(i as int)),
    {
        assert(args.skip(i as int).skip(1) =~= args.skip(i + 1));
        assert(args.skip(i as int)[0] == raw_args@[i as int]@);
        if same_text(raw_args[i].as_str(), "--shim") {
            let mut rest = raw_args;
            let _shim = rest.remove(i);
            assert(text::texts(rest@) =~= args.remove(i as int));
            return Mode::Shim(rest);
        }
    }
    Mode::Wrapper
}

/// What `shim_index` finds: no argument before it is `--shim`, and it is one
/// itself unless there is none.
pub proof fn law_first_shim_found(args: Seq<Seq<char>>)
    ensures
        shim_index(args) <= args.len(),
        shim_index(args) < args.len() ==> args[shim_index(args) as int] == "--shim"@,
        forall|i: int| 0 <= i < shim_index(args) ==> #[trigger] args[i] != "--shim"@,
    decreases args.len(),
{
    if args.len() > 0 && args[0] != "--shim"@ {
        let rest = args.skip(1);
        law_first_shim_found(rest);
        assert forall|i: int| 0 <= i < shim_index(args) implies #[trigger] args[i] != "--shim"@ by {
            if i > 0 {
                assert(args[i] == rest[i - 1]);
            }
        }
    }
}

/// Shim mode is chosen exactly where some argument is `--shim`; then the first
/// `--shim` is taken out, and all other arguments are kept in order.
pub proof fn law_shim_mode(raw_args: Vec<String>, r: Mode, k: int)
    requires
        call_ensures(choose_mode, (raw_args,), r),
        0 <= k <= raw_args@.len(),
        forall|i: int| 0 <= i < k ==> (#[trigger] raw_args@[i])@ != "--shim"@,
        k < raw_args@.len() ==> raw_args@[k]@ == "--shim"@,
    ensures
        k == raw_args@.len() ==> r is Wrapper,
        k < raw_args@.len() ==> {
            &&& r is Shim
            &&& r->Shim_0@.len() == raw_args@.len() - 1
            &&& forall|i: int| 0 <= i < k ==> (#[trigger] r->Shim_0@[i])@ == raw_args@[i]@
            &&& forall|i: int|
                k <= i < raw_args@.len() - 1 ==> (#[trigger] r->Shim_0@[i])@ == raw_args@[i + 1]@
        },
{
    let args = text::texts(raw_args@);
    text::law_texts_are_views(raw_args@);
    law_first_shim_found(args);
    let m = shim_index(args) as int;
    if m < k {
        assert(args[m] == raw_args@[m]@);
    }
    if k < m {
        assert(args[k] == raw_args@[k]@);
    }
    if k < raw_args@.len() {
        let rest = r->Shim_0@;
        text::law_texts_are_views(rest);
        assert forall|i: int| 0 <= i < k implies (#[trigger] rest[i])@ == raw_args@[i]@ by {
            assert(text::texts(rest)[i] == rest[i]@);
            assert(args[i] == raw_args@[i]@);
        }
        assert forall|i: int| k <= i < raw_args@.len() - 1 implies (#[trigger] rest[i])@
            == raw_args@[i + 1]@ by {
            assert(text::texts(rest)[i] == rest[i]@);
            assert(args[i + 1] == raw_args@[i + 1]@);
        }
    }
}

} // verus!
