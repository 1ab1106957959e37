//! The names of scratch directories, below the directory for temporary files.

use vstd::prelude::*;

use crate::numbers;

verus! {

/// The scratch directory of the process `pid` for the part `role` of a transfer.
pub open spec fn role_dir(role: Seq<char>, pid: nat) -> Seq<char> {
    "hato-"@ + role + "-"@ + numbers::decimal_text(pid)
}

/// The scratch directory of the process `pid` for the part `role` of a transfer.
pub fn store_dir(role: &str, pid: u32) -> (r: String)
    ensures
        r@ == role_dir(role@, pid as nat),
{
    let mut out = "hato-".to_owned();
    out.append(role);
    out.append("-");
    out.append(numbers::decimal(pid as u128).as_str());
    out
}

/// The scratch directory for a transfer that the desktop window of the process
/// `pid` began at the time `nanos`.
pub open spec fn desktop_dir(pid: nat, nanos: nat) -> Seq<char> {
    "hato-gui-send-"@ + numbers::decimal_text(pid) + "-"@ + numbers::decimal_text(nanos)
}

/// The scratch directory for a transfer that the desktop window of the process
/// `pid` began at the time `nanos`.
pub fn send_store_dir(pid: u32, nanos: u128) -> (r: String)
    ensures
        r@ == desktop_dir(pid as nat, nanos as nat),
{
    let mut out = "hato-gui-send-".to_owned();
    out.append(numbers::decimal(pid as u128).as_str());
    out.append("-");
    out.append(numbers::decimal(nanos).as_str());
    out
}

/// The scratch directory of the process `pid` for what the endpoint with the
/// short id `short` offers.
pub open spec fn peer_dir(short: Seq<char>, pid: nat) -> Seq<char> {
    short + "-"@ + numbers::decimal_text(pid)
}

/// The scratch directory of the process `pid` for what the endpoint with the
/// short id `short` offers.
pub fn listen_store_dir(short: &str, pid: u32) -> (r: String)
    ensures
        r@ == peer_dir(short@, pid as nat),
{
    let mut out = short.to_owned();
    out.append("-");
    out.append(numbers::decimal(pid as u128).as_str());
    out
}

/// Numerals after the same beginning differ where the numbers do.
proof fn lemma_numerals_differ(head: Seq<char>, m: nat, n: nat)
    requires
        head + numbers::decimal_text(m) == head + numbers::decimal_text(n),
    ensures
        m == n,
{
    let a = head + numbers::decimal_text(m);
    let b = head + numbers::decimal_text(n);
    assert(a.skip(head.len() as int) =~= numbers::decimal_text(m));
    assert(b.skip(head.len() as int) =~= numbers::decimal_text(n));
    numbers::law_decimal_reads_back(m);
    numbers::law_decimal_reads_back(n);
}

/// Two processes never share a scratch directory: neither for the same part of a
/// transfer nor for what the same endpoint offers.
pub proof fn law_processes_do_not_share(name: Seq<char>, p: nat, q: nat)
    requires
        p != q,
    ensures
        role_dir(name, p) != role_dir(name, q),
        peer_dir(name, p) != peer_dir(name, q),
{
    if role_dir(name, p) == role_dir(name, q) {
        lemma_numerals_differ("hato-"@ + name + "-"@, p, q);
    }
    if peer_dir(name, p) == peer_dir(name, q) {
        lemma_numerals_differ(name + "-"@, p, q);
    }
}

/// Two transfers from the desktop share a scratch directory only where the
/// process and the time are the same.
pub proof fn law_desktop_transfers_do_not_share(p: nat, m: nat, q: nat, n: nat)
    requires
        desktop_dir(p, m) == desktop_dir(q, n),
    ensures
        p == q,
        m == n,
{
    let head = "hato-gui-send-"@;
    let a = numbers::decimal_text(p);
    let b = numbers::decimal_text(q);
    let x = desktop_dir(p, m);
    let y = desktop_dir(q, n);
    numbers::law_decimal_reads_back(p);
    numbers::law_decimal_reads_back(q);
    reveal_strlit("-");
    let k = head.len() as int;
    assert(x[k + a.len()] == '-');
    assert(y[k + b.len()] == '-');
    if a.len() < b.len() {
        assert(y[k + a.len()] == b[a.len() as int]);
        assert(numbers::is_digit(b[a.len() as int]));
    }
    if b.len() < a.len() {
        assert(x[k + b.len()] == a[b.len() as int]);
        assert(numbers::is_digit(a[b.len() as int]));
    }
    assert forall|i: int| 0 <= i < a.len() implies a[i] == b[i] by {
        assert(x[k + i] == a[i]);
        assert(y[k + i] == b[i]);
    }
    assert(a =~= b);
    lemma_numerals_differ(head + a + "-"@, m, n);
}

/// The directories for different endpoints differ, and so do those for different parts
/// of a transfer: the names in them are whole.
pub proof fn law_names_do_not_share(a: Seq<char>, b: Seq<char>, p: nat)
    requires
        a != b,
    ensures
        role_dir(a, p) != role_dir(b, p),
        peer_dir(a, p) != peer_dir(b, p),
{
    let tail = "-"@ + numbers::decimal_text(p);
    let head = "hato-"@;
    if peer_dir(a, p) == peer_dir(b, p) {
        assert(peer_dir(a, p) =~= a + tail);
        assert(peer_dir(b, p) =~= b + tail);
        assert(a.len() == b.len());
        assert((a + tail).take(a.len() as int) =~= a);
        assert((b + tail).take(a.len() as int) =~= b);
    }
    if role_dir(a, p) == role_dir(b, p) {
        assert(role_dir(a, p) =~= head + a + tail);
        assert(role_dir(b, p) =~= head + b + tail);
        assert(a.len() == b.len());
        let n = head.len() as int;
        assert((head + a + tail).subrange(n, n + a.len()) =~= a);
        assert((head + b + tail).subrange(n, n + a.len()) =~= b);
    }
}

} // verus!
