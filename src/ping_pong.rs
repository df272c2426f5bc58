use vstd::prelude::*;

verus! {

// A ping-pong pair is two textures, 0 and 1, of which each pass of a chain
// reads one and writes the other. A chain is named by the texture that its
// first pass reads.

/// Texture read by pass `i` of the chain that starts by reading `first`.
pub open spec fn pass_source(first: nat, i: nat) -> nat {
    (first + i) % 2
}

/// Texture written by pass `i` of the chain that starts by reading `first`.
pub open spec fn pass_destination(first: nat, i: nat) -> nat {
    (first + i + 1) % 2
}

/// Texture that holds the result after `n` passes of the chain that starts by
/// reading `first`.
pub open spec fn current_after(first: nat, n: nat) -> nat {
    (first + n) % 2
}

/// Parity of a ping-pong chain: no pass reads the texture it writes, each pass
/// reads what the pass before it wrote, and after `n` passes the result is in
/// the texture that the last pass wrote, which is `first` exactly when `n` is even.
pub proof fn lemma_ping_pong_parity(first: nat, n: nat)
    requires
        first <= 1,
    ensures
        forall|i: nat| #[trigger] pass_source(first, i) != pass_destination(first, i),
        forall|i: nat| #[trigger] pass_source(first, i + 1) == pass_destination(first, i),
        n > 0 ==> current_after(first, n) == pass_destination(first, (n - 1) as nat),
        current_after(first, n) == first <==> n % 2 == 0,
        current_after(first, n) <= 1,
{
}

} // verus!
