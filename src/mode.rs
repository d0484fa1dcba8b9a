use vstd::prelude::*;

verus! {

/// How the server tears a connection down after echoing the odd value.
#[derive(Clone, Copy, Debug, PartialEq, Eq, Structural)]
pub enum TeardownMode {
    CloseImmediately,
    DrainThenClose,
    ShutdownWriteThenDrain,
    ShutdownWriteThenClose,
    SleepThenClose,
    ShutdownBothThenClose,
}

/// The kebab-case name under which a mode is selected.
pub open spec fn mode_name(m: TeardownMode) -> Seq<char> {
    match m {
        TeardownMode::CloseImmediately => "close-immediately"@,
        TeardownMode::DrainThenClose => "drain-then-close"@,
        TeardownMode::ShutdownWriteThenDrain => "shutdown-write-then-drain"@,
        TeardownMode::ShutdownWriteThenClose => "shutdown-write-then-close"@,
        TeardownMode::SleepThenClose => "sleep-then-close"@,
        TeardownMode::ShutdownBothThenClose => "shutdown-both-then-close"@,
    }
}

/// The modes in the order in which they are listed.
pub open spec fn mode_list() -> Seq<TeardownMode> {
    seq![
        TeardownMode::CloseImmediately,
        TeardownMode::DrainThenClose,
        TeardownMode::ShutdownWriteThenDrain,
        TeardownMode::ShutdownWriteThenClose,
        TeardownMode::SleepThenClose,
        TeardownMode::ShutdownBothThenClose,
    ]
}

/// The mode whose name is `s`, if any.
pub open spec fn mode_named(s: Seq<char>) -> Option<TeardownMode> {
    if exists|i: int| 0 <= i < 6 && mode_name(#[trigger] mode_list()[i]) == s {
        Some(mode_list()[choose|i: int| 0 <= i < 6 && mode_name(#[trigger] mode_list()[i]) == s])
    } else {
        None
    }
}

impl TeardownMode {
    /// The name of this mode.
    pub fn name(&self) -> (r: &'static str)
        ensures
            r@ == mode_name(*self),
    {
        match self {
            TeardownMode::CloseImmediately => "close-immediately",
            TeardownMode::DrainThenClose => "drain-then-close",
            TeardownMode::ShutdownWriteThenDrain => "shutdown-write-then-drain",
            TeardownMode::ShutdownWriteThenClose => "shutdown-write-then-close",
            TeardownMode::SleepThenClose => "sleep-then-close",
            TeardownMode::ShutdownBothThenClose => "shutdown-both-then-close",
        }
    }

    /// Every mode, in the order in which they are listed.
    pub fn all() -> (r: Vec<TeardownMode>)
        ensures
            r@ == mode_list(),
    {
        let r = vec![
            TeardownMode::CloseImmediately,
            TeardownMode::DrainThenClose,
            TeardownMode::ShutdownWriteThenDrain,
            TeardownMode::ShutdownWriteThenClose,
            TeardownMode::SleepThenClose,
            TeardownMode::ShutdownBothThenClose,
        ];
        assert(r@ =~= mode_list());
        r
    }

    /// The mode with the given name; `None` where no mode has it.
    pub fn from_name(s: &str) -> (r: Option<TeardownMode>)
        ensures
            r == mode_named(s@),
    {
        let given = s.to_owned();
        let modes = TeardownMode::all();
        let mut i: usize = 0;
        while i < modes.len()
            invariant
                modes@ == mode_list(),
                given@ == s@,
                0 <= i <= 6,
                forall|j: int| 0 <= j < i ==> mode_name(#[trigger] mode_list()[j]) != s@,
            decreases modes.len() - i,
        {
            let m = modes[i];
            let candidate = m.name().to_owned();
            if candidate == given {
                proof {
                    lemma_names_distinct();
                    assert(mode_name(mode_list()[i as int]) == s@);
                    assert(exists|c: int| 0 <= c < 6 && mode_name(#[trigger] mode_list()[c]) == s@);
                    let c = choose|c: int| 0 <= c < 6 && mode_name(#[trigger] mode_list()[c]) == s@;
                    assert(c == i);
                }
                return Some(m);
            }
            i = i + 1;
        }
        None
    }
}

/// No two modes share a name.
pub proof fn lemma_names_distinct()
    ensures
        forall|i: int, j: int|
            0 <= i < 6 && 0 <= j < 6 && i != j ==> mode_name(#[trigger] mode_list()[i])
                != mode_name(#[trigger] mode_list()[j]),
{
    reveal_strlit("close-immediately");
    reveal_strlit("drain-then-close");
    reveal_strlit("shutdown-write-then-drain");
    reveal_strlit("shutdown-write-then-close");
    reveal_strlit("sleep-then-close");
    reveal_strlit("shutdown-both-then-close");
    assert forall|i: int, j: int|
        0 <= i < 6 && 0 <= j < 6 && i != j implies mode_name(#[trigger] mode_list()[i])
            != mode_name(#[trigger] mode_list()[j]) by {
        let a = mode_name(mode_list()[i]);
        let b = mode_name(mode_list()[j]);
        if a.len() == b.len() {
            assert(a[0] != b[0] || a[20] != b[20]);
        }
    }
}

/// Every mode is found again under its own name.
pub proof fn lemma_name_round_trip(m: TeardownMode)
    ensures
        mode_named(mode_name(m)) == Some(m),
{
    lemma_names_distinct();
    let k: int = match m {
        TeardownMode::CloseImmediately => 0,
        TeardownMode::DrainThenClose => 1,
        TeardownMode::ShutdownWriteThenDrain => 2,
        TeardownMode::ShutdownWriteThenClose => 3,
        TeardownMode::SleepThenClose => 4,
        TeardownMode::ShutdownBothThenClose => 5,
    };
    assert(mode_list()[k] == m);
    assert(mode_name(mode_list()[k]) == mode_name(m));
}

} // verus!
