//! The command line: which arguments name sources, whether the store is to
//! be cleared, and which command follows.

use crate::paths::{byte_range, byte_text, byte_views, same_bytes, text_bytes};
use crate::text::{first_index, lemma_first_index_unique};
use vstd::prelude::*;
use vstd::string::*;

verus! {

/// What the command line asks for.
#[derive(Clone, Debug)]
pub struct Invocation {
    /// The sources to synchronize, in the order given.
    pub sources: Vec<Vec<u8>>,
    /// Whether the watermark store is emptied before any source is processed.
    pub clear: bool,
    /// The command to run once the synchronization is done, with its
    /// arguments; empty where none was given.
    pub command: Vec<Vec<u8>>,
}

/// The mathematical value of an [`Invocation`].
pub struct InvocationView {
    pub sources: Seq<Seq<u8>>,
    pub clear: bool,
    pub command: Seq<Seq<u8>>,
}

impl View for Invocation {
    type V = InvocationView;

    open spec fn view(&self) -> InvocationView {
        InvocationView {
            sources: byte_views(self.sources@),
            clear: self.clear,
            command: byte_views(self.command@),
        }
    }
}

/// The argument `--`, which ends the sources.
pub open spec fn separator() -> Seq<u8> {
    byte_text("--"@)
}

/// The argument `--clear`.
pub open spec fn clear_flag() -> Seq<u8> {
    byte_text("--clear"@)
}

/// The sequence without the elements equal to `x`.
pub open spec fn without<T>(s: Seq<T>, x: T) -> Seq<T>
    decreases s.len(),
{
    if s.len() == 0 {
        Seq::empty()
    } else if s.last() == x {
        without(s.drop_last(), x)
    } else {
        without(s.drop_last(), x).push(s.last())
    }
}

/// The arguments that the program was given: all but the first, which names
/// the program.
pub open spec fn given(argv: Seq<Seq<u8>>) -> Seq<Seq<u8>> {
    if argv.len() == 0 {
        argv
    } else {
        argv.subrange(1, argv.len() as int)
    }
}

/// The arguments before the first `--`, or all where there is none.
pub open spec fn before_separator(args: Seq<Seq<u8>>) -> Seq<Seq<u8>> {
    if args.contains(separator()) {
        args.subrange(0, first_index(args, separator()))
    } else {
        args
    }
}

/// The arguments behind the first `--`, or none where there is none.
pub open spec fn behind_separator(args: Seq<Seq<u8>>) -> Seq<Seq<u8>> {
    if args.contains(separator()) {
        args.subrange(first_index(args, separator()) + 1, args.len() as int)
    } else {
        Seq::empty()
    }
}

/// What a command line asks for: the arguments before the first `--` are
/// sources, but for `--clear`, which may stand anywhere among them and sets
/// the flag; the arguments behind it are the command.
pub open spec fn invocation_of(argv: Seq<Seq<u8>>) -> InvocationView {
    let own = before_separator(given(argv));
    InvocationView {
        sources: without(own, clear_flag()),
        clear: own.contains(clear_flag()),
        command: behind_separator(given(argv)),
    }
}

/// An argument joins or leaves the sequence with its membership.
proof fn lemma_contains_push<T>(s: Seq<T>, last: T, x: T)
    ensures
        s.push(last).contains(x) == (s.contains(x) || last == x),
{
    let grown = s.push(last);
    if grown.contains(x) {
        let k = choose|k: int| 0 <= k < grown.len() && grown[k] == x;
        if k < s.len() {
            assert(s[k] == x);
        }
    }
    if s.contains(x) {
        let k = choose|k: int| 0 <= k < s.len() && s[k] == x;
        assert(grown[k] == x);
    }
    if last == x {
        assert(grown[s.len() as int] == x);
    }
}

/// Reads the command line `argv`, whose first element names the program.
pub fn parse_arguments(argv: Vec<Vec<u8>>) -> (r: Invocation)
    ensures
        r@ == invocation_of(byte_views(argv@)),
{
    proof {
        reveal_strlit("--");
        reveal_strlit("--clear");
    }
    let sep: Vec<u8> = text_bytes("--");
    let flag: Vec<u8> = text_bytes("--clear");
    let n: usize = argv.len();
    let ghost args = given(byte_views(argv@));
    let mut sources: Vec<Vec<u8>> = Vec::new();
    let mut command: Vec<Vec<u8>> = Vec::new();
    let mut clear: bool = false;
    assert(byte_views(sources@) =~= Seq::<Seq<u8>>::empty());
    assert(byte_views(command@) =~= Seq::<Seq<u8>>::empty());
    if n == 0 {
        assert(args =~= Seq::<Seq<u8>>::empty());
        assert(!args.contains(separator()));
        assert(!args.contains(clear_flag()));
        return Invocation { sources, clear, command };
    }
    assert(args.len() == n - 1);
    assert forall|j: int| 0 <= j < n - 1 implies args[j] == argv@[j + 1]@ by {}
    let mut end: usize = 1;
    while end < n && !same_bytes(&argv[end], &sep)
        invariant
            n == argv@.len(),
            1 <= end <= n,
            sep@ == separator(),
            args.len() == n - 1,
            forall|j: int| 0 <= j < n - 1 ==> args[j] == argv@[j + 1]@,
            forall|j: int| 0 <= j < end - 1 ==> args[j] != separator(),
        decreases n - end,
    {
        end = end + 1;
    }
    let ghost own = args.subrange(0, end as int - 1);
    proof {
        if end < n {
            assert(args[end as int - 1] == separator());
            lemma_first_index_unique(args, separator(), end as int - 1);
        } else {
            if args.contains(separator()) {
                let k = choose|k: int| 0 <= k < args.len() && args[k] == separator();
                assert(false);
            }
            assert(own =~= args);
        }
        assert(own == before_separator(args));
    }
    let mut k: usize = 1;
    assert(own.subrange(0, 0) =~= Seq::<Seq<u8>>::empty());
    assert(!own.subrange(0, 0).contains(clear_flag()));
    while k < end
        invariant
            n == argv@.len(),
            1 <= k <= end <= n,
            flag@ == clear_flag(),
            args.len() == n - 1,
            own == args.subrange(0, end as int - 1),
            forall|j: int| 0 <= j < n - 1 ==> args[j] == argv@[j + 1]@,
            byte_views(sources@) == without(own.subrange(0, k as int - 1), clear_flag()),
            clear == own.subrange(0, k as int - 1).contains(clear_flag()),
        decreases end - k,
    {
        let ghost seen = own.subrange(0, k as int - 1);
        let ghost grown = own.subrange(0, k as int);
        let ghost done = byte_views(sources@);
        proof {
            assert(own[k as int - 1] == argv@[k as int]@);
            assert(grown =~= seen.push(own[k as int - 1]));
            assert(grown.drop_last() =~= seen);
            lemma_contains_push(seen, own[k as int - 1], clear_flag());
        }
        if same_bytes(&argv[k], &flag) {
            clear = true;
        } else {
            let copy: Vec<u8> = byte_range(&argv[k], 0, argv[k].len());
            assert(copy@ =~= argv@[k as int]@);
            sources.push(copy);
            assert(byte_views(sources@) =~= done.push(argv@[k as int]@));
        }
        k = k + 1;
    }
    assert(own.subrange(0, end as int - 1) =~= own);
    if end < n {
        let mut j: usize = end + 1;
        assert(args.subrange(end as int, end as int) =~= Seq::<Seq<u8>>::empty());
        while j < n
            invariant
                n == argv@.len(),
                1 <= end < j <= n,
                args.len() == n - 1,
                forall|j: int| 0 <= j < n - 1 ==> args[j] == argv@[j + 1]@,
                byte_views(command@) == args.subrange(end as int, j as int - 1),
            decreases n - j,
        {
            let ghost done = byte_views(command@);
            let copy: Vec<u8> = byte_range(&argv[j], 0, argv[j].len());
            assert(copy@ =~= argv@[j as int]@);
            command.push(copy);
            proof {
                assert(args[j as int - 1] == argv@[j as int]@);
                assert(byte_views(command@) =~= done.push(args[j as int - 1]));
                assert(args.subrange(end as int, j as int) =~= args.subrange(
                    end as int,
                    j as int - 1,
                ).push(args[j as int - 1]));
            }
            j = j + 1;
        }
    }
    Invocation { sources, clear, command }
}

} // verus!
