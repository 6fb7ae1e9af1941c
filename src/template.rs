use vstd::prelude::*;

verus! {

/// The token in a command template that a worker's lines replace.
pub open spec fn placeholder() -> Seq<char> {
    seq!['{', '}']
}

/// `p` is the position of the first placeholder token in `cmd`.
pub open spec fn first_placeholder_at(cmd: Seq<String>, p: int) -> bool {
    &&& 0 <= p < cmd.len()
    &&& cmd[p]@ == placeholder()
    &&& forall|q: int| 0 <= q < p ==> (#[trigger] cmd[q])@ != placeholder()
}

/// `cmd` holds no placeholder token.
pub open spec fn has_no_placeholder(cmd: Seq<String>) -> bool {
    forall|q: int| 0 <= q < cmd.len() ==> (#[trigger] cmd[q])@ != placeholder()
}

/// `cmd` with its first placeholder token replaced by `subs`, in order;
/// `cmd` itself where it holds no placeholder.
pub open spec fn substituted(cmd: Seq<String>, subs: Seq<String>) -> Seq<String> {
    if exists|p: int| first_placeholder_at(cmd, p) {
        let p = choose|p: int| first_placeholder_at(cmd, p);
        cmd.take(p) + subs + cmd.skip(p + 1)
    } else {
        cmd
    }
}

/// At most one position is the first placeholder.
proof fn lemma_first_placeholder_unique(cmd: Seq<String>, p: int, q: int)
    requires
        first_placeholder_at(cmd, p),
        first_placeholder_at(cmd, q),
    ensures
        p == q,
{
    if p < q {
        assert(cmd[p]@ != placeholder());
    } else if q < p {
        assert(cmd[q]@ != placeholder());
    }
}

/// The position of the first placeholder token in `cmd`, if there is one.
pub fn find_placeholder(cmd: &Vec<String>) -> (r: Option<usize>)
    ensures
        r matches Some(p) ==> first_placeholder_at(cmd@, p as int),
        r is None ==> has_no_placeholder(cmd@),
{
    proof {
        reveal_strlit("{}");
    }
    assert("{}"@ =~= placeholder());
    let token = "{}".to_owned();
    let mut i: usize = 0;
    while i < cmd.len()
        invariant
            token@ == placeholder(),
            i <= cmd.len(),
            forall|q: int| 0 <= q < i ==> (#[trigger] cmd@[q])@ != placeholder(),
        decreases cmd.len() - i,
    {
        if cmd[i] == token {
            return Some(i);
        }
        i = i + 1;
    }
    None
}

/// Replaces the first placeholder token of `cmd` by all of `substitutes`, in
/// order; leaves `cmd` as it is where it holds no placeholder.
pub fn replace_inputs(cmd: &mut Vec<String>, substitutes: &[String])
    ensures
        final(cmd)@ == substituted(old(cmd)@, substitutes@),
{
    match find_placeholder(cmd) {
        None => {
            assert(!exists|p: int| first_placeholder_at(old(cmd)@, p));
        },
        Some(p) => {
            let ghost orig = cmd@;
            let mut out: Vec<String> = Vec::new();
            let mut i: usize = 0;
            while i < p
                invariant
                    cmd@ == orig,
                    p < orig.len(),
                    i <= p,
                    out@ == orig.take(i as int),
                decreases p - i,
            {
                out.push(cmd[i].clone());
                i = i + 1;
                assert(out@ =~= orig.take(i as int));
            }
            let mut s: usize = 0;
            while s < substitutes.len()
                invariant
                    cmd@ == orig,
                    p < orig.len(),
                    s <= substitutes@.len(),
                    out@ == orig.take(p as int) + substitutes@.take(s as int),
                decreases substitutes.len() - s,
            {
                out.push(substitutes[s].clone());
                s = s + 1;
                assert(out@ =~= orig.take(p as int) + substitutes@.take(s as int));
            }
            assert(substitutes@.take(substitutes@.len() as int) =~= substitutes@);
            assert(p < cmd.len());
            let mut i: usize = p + 1;
            while i < cmd.len()
                invariant
                    cmd@ == orig,
                    p < orig.len(),
                    p + 1 <= i <= orig.len(),
                    out@ == orig.take(p as int) + substitutes@ + orig.subrange(
                        p + 1,
                        i as int,
                    ),
                decreases cmd.len() - i,
            {
                out.push(cmd[i].clone());
                i = i + 1;
                assert(out@ =~= orig.take(p as int) + substitutes@ + orig.subrange(
                    p + 1,
                    i as int,
                ));
            }
            proof {
                let c = choose|q: int| first_placeholder_at(orig, q);
                lemma_first_placeholder_unique(orig, p as int, c);
                assert(orig.subrange(p + 1, orig.len() as int) =~= orig.skip(p + 1));
            }
            *cmd = out;
        },
    }
}

} // verus!
