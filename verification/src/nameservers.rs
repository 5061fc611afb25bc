//! Construction of the name-server list: classify each user token as an
//! address literal or a hostname, fold in the selected well-known provider
//! sets, collect per-token resolution outcomes without aborting on failures,
//! and refuse to run only when nothing usable is left.

use vstd::prelude::*;

use crate::ip::IpAddress;
use crate::ip::Ipv4Address;
use crate::ip::Ipv6Address;
use crate::ip::parse_ip;
use crate::ip::spec_parse_ip;

verus! {

/// A user-supplied name-server token, classified. A literal bypasses
/// resolution entirely; a hostname is handed back for one resolution
/// attempt.
pub enum NameServerToken {
    Literal { address: IpAddress },
    Hostname { name: String },
}

/// Classify one user token: the address it literally names, or the hostname
/// to resolve.
pub fn classify_name_server(token: &str) -> (r: NameServerToken)
    ensures
        match r {
            NameServerToken::Literal { address } => spec_parse_ip(token@) == Some(address),
            NameServerToken::Hostname { name } => spec_parse_ip(token@) is None && name@
                == token@,
        },
{
    match parse_ip(token) {
        Some(address) => NameServerToken::Literal { address },
        None => NameServerToken::Hostname { name: token.to_owned() },
    }
}

/// What one token contributed: the addresses it stood for or resolved to,
/// or the description of its failed resolution.
pub enum TokenOutcome {
    Addresses { addresses: Vec<IpAddress> },
    Failed { message: String },
}

/// The addresses of all successful tokens, flattened in token order.
pub open spec fn flatten_addresses(h: Seq<TokenOutcome>) -> Seq<IpAddress>
    decreases h.len(),
{
    if h.len() == 0 {
        seq![]
    } else {
        flatten_addresses(h.drop_last()) + match h.last() {
            TokenOutcome::Addresses { addresses } => addresses@,
            TokenOutcome::Failed { .. } => seq![],
        }
    }
}

/// The failure lines of all unresolvable tokens, in token order.
pub open spec fn resolution_failures(h: Seq<TokenOutcome>) -> Seq<Seq<char>>
    decreases h.len(),
{
    if h.len() == 0 {
        seq![]
    } else {
        resolution_failures(h.drop_last()) + match h.last() {
            TokenOutcome::Addresses { .. } => seq![],
            TokenOutcome::Failed { message } => seq![message@],
        }
    }
}

/// How many tokens failed to resolve.
pub open spec fn count_failed_tokens(h: Seq<TokenOutcome>) -> int
    decreases h.len(),
{
    if h.len() == 0 {
        0
    } else {
        count_failed_tokens(h.drop_last()) + match h.last() {
            TokenOutcome::Addresses { .. } => 0int,
            TokenOutcome::Failed { .. } => 1int,
        }
    }
}

/// Exactly one failure line is logged per unresolvable token.
pub proof fn lemma_one_line_per_unresolvable_token(h: Seq<TokenOutcome>)
    ensures
        resolution_failures(h).len() == count_failed_tokens(h),
    decreases h.len(),
{
    if h.len() > 0 {
        lemma_one_line_per_unresolvable_token(h.drop_last());
    }
}

/// Gather the tokens' outcomes: the flattened addresses of every token that
/// stood for or resolved to addresses, in token order, beside one failure
/// line per unresolvable token.
pub fn collect_name_servers(outcomes: Vec<TokenOutcome>) -> (r: (Vec<IpAddress>, Vec<String>))
    ensures
        r.0@ == flatten_addresses(outcomes@),
        r.1@.map_values(|m: String| m@) == resolution_failures(outcomes@),
{
    let ghost all = outcomes@;
    let mut rest = outcomes;
    let mut addresses: Vec<IpAddress> = Vec::new();
    let mut failures: Vec<String> = Vec::new();
    proof {
        assert(addresses@ =~= flatten_addresses(all.take(0)));
        assert(failures@.map_values(|m: String| m@) =~= resolution_failures(all.take(0)));
    }
    let ghost mut taken: int = 0;
    while rest.len() > 0
        invariant
            0 <= taken <= all.len(),
            rest@ =~= all.skip(taken),
            addresses@ == flatten_addresses(all.take(taken)),
            failures@.map_values(|m: String| m@) == resolution_failures(all.take(taken)),
        decreases rest.len(),
    {
        let oc = rest.remove(0);
        proof {
            assert(oc == all[taken]);
            assert(rest@ =~= all.skip(taken + 1));
            assert(all.take(taken + 1).drop_last() =~= all.take(taken));
            assert(all.take(taken + 1).last() == all[taken]);
        }
        match oc {
            TokenOutcome::Addresses { addresses: mut found } => {
                addresses.append(&mut found);
                proof {
                    assert(addresses@ =~= flatten_addresses(all.take(taken + 1)));
                    assert(failures@.map_values(|m: String| m@) =~= resolution_failures(
                        all.take(taken + 1),
                    ));
                }
            },
            TokenOutcome::Failed { message } => {
                let ghost prev = failures@;
                failures.push(message);
                proof {
                    prev.lemma_push_map_commute(|m: String| m@, message);
                    assert(failures@.map_values(|m: String| m@) =~= resolution_failures(
                        all.take(taken + 1),
                    ));
                    assert(addresses@ =~= flatten_addresses(all.take(taken + 1)));
                }
            },
        }
        proof {
            taken = taken + 1;
        }
    }
    proof {
        assert(all.take(taken) =~= all);
    }
    (addresses, failures)
}

/// The failure line for one token whose resolution failed.
pub fn resolution_failure_line(detail: &str) -> (r: String)
    ensures
        r@ == "Error resolving name sever "@ + detail@,
{
    let msg = String::from_str("Error resolving name sever ");
    msg.concat(detail)
}

/// Accept a merged name-server list, or refuse the run: an empty list is
/// the one fatal configuration error of this stage.
pub fn require_name_servers(addresses: Vec<IpAddress>) -> (r: Result<Vec<IpAddress>, String>)
    ensures
        match r {
            Ok(v) => addresses@.len() > 0 && v@ == addresses@,
            Err(m) => addresses@.len() == 0 && m@ == "No valid name servers found."@,
        },
{
    if addresses.len() == 0 {
        Err(String::from_str("No valid name servers found."))
    } else {
        Ok(addresses)
    }
}

/// The first well-known public resolver set.
pub open spec fn spec_google_addresses() -> Seq<IpAddress> {
    seq![
        IpAddress::V4(Ipv4Address { a: 8, b: 8, c: 8, d: 8 }),
        IpAddress::V4(Ipv4Address { a: 8, b: 8, c: 4, d: 4 }),
        IpAddress::V6(
            Ipv6Address {
                s0: 0x2001,
                s1: 0x4860,
                s2: 0x4860,
                s3: 0,
                s4: 0,
                s5: 0,
                s6: 0,
                s7: 0x8888,
            },
        ),
        IpAddress::V6(
            Ipv6Address {
                s0: 0x2001,
                s1: 0x4860,
                s2: 0x4860,
                s3: 0,
                s4: 0,
                s5: 0,
                s6: 0,
                s7: 0x8844,
            },
        ),
    ]
}

/// The second well-known public resolver set.
pub open spec fn spec_cloudflare_addresses() -> Seq<IpAddress> {
    seq![
        IpAddress::V4(Ipv4Address { a: 1, b: 1, c: 1, d: 1 }),
        IpAddress::V4(Ipv4Address { a: 1, b: 0, c: 0, d: 1 }),
        IpAddress::V6(
            Ipv6Address {
                s0: 0x2606,
                s1: 0x4700,
                s2: 0x4700,
                s3: 0,
                s4: 0,
                s5: 0,
                s6: 0,
                s7: 0x1111,
            },
        ),
        IpAddress::V6(
            Ipv6Address {
                s0: 0x2606,
                s1: 0x4700,
                s2: 0x4700,
                s3: 0,
                s4: 0,
                s5: 0,
                s6: 0,
                s7: 0x1001,
            },
        ),
    ]
}

/// The third well-known public resolver set.
pub open spec fn spec_quad9_addresses() -> Seq<IpAddress> {
    seq![
        IpAddress::V4(Ipv4Address { a: 9, b: 9, c: 9, d: 9 }),
        IpAddress::V4(Ipv4Address { a: 149, b: 112, c: 112, d: 112 }),
        IpAddress::V6(
            Ipv6Address {
                s0: 0x2620,
                s1: 0x00fe,
                s2: 0,
                s3: 0,
                s4: 0,
                s5: 0,
                s6: 0,
                s7: 0x00fe,
            },
        ),
        IpAddress::V6(
            Ipv6Address {
                s0: 0x2620,
                s1: 0x00fe,
                s2: 0,
                s3: 0,
                s4: 0,
                s5: 0,
                s6: 0x00fe,
                s7: 0x0009,
            },
        ),
    ]
}

/// The first well-known provider set, as values.
pub fn google_addresses() -> (r: Vec<IpAddress>)
    ensures
        r@ == spec_google_addresses(),
{
    let r = vec![
        IpAddress::V4(Ipv4Address { a: 8, b: 8, c: 8, d: 8 }),
        IpAddress::V4(Ipv4Address { a: 8, b: 8, c: 4, d: 4 }),
        IpAddress::V6(
            Ipv6Address {
                s0: 0x2001,
                s1: 0x4860,
                s2: 0x4860,
                s3: 0,
                s4: 0,
                s5: 0,
                s6: 0,
                s7: 0x8888,
            },
        ),
        IpAddress::V6(
            Ipv6Address {
                s0: 0x2001,
                s1: 0x4860,
                s2: 0x4860,
                s3: 0,
                s4: 0,
                s5: 0,
                s6: 0,
                s7: 0x8844,
            },
        ),
    ];
    proof {
        assert(r@ =~= spec_google_addresses());
    }
    r
}

/// The second well-known provider set, as values.
pub fn cloudflare_addresses() -> (r: Vec<IpAddress>)
    ensures
        r@ == spec_cloudflare_addresses(),
{
    let r = vec![
        IpAddress::V4(Ipv4Address { a: 1, b: 1, c: 1, d: 1 }),
        IpAddress::V4(Ipv4Address { a: 1, b: 0, c: 0, d: 1 }),
        IpAddress::V6(
            Ipv6Address {
                s0: 0x2606,
                s1: 0x4700,
                s2: 0x4700,
                s3: 0,
                s4: 0,
                s5: 0,
                s6: 0,
                s7: 0x1111,
            },
        ),
        IpAddress::V6(
            Ipv6Address {
                s0: 0x2606,
                s1: 0x4700,
                s2: 0x4700,
                s3: 0,
                s4: 0,
                s5: 0,
                s6: 0,
                s7: 0x1001,
            },
        ),
    ];
    proof {
        assert(r@ =~= spec_cloudflare_addresses());
    }
    r
}

/// The third well-known provider set, as values.
pub fn quad9_addresses() -> (r: Vec<IpAddress>)
    ensures
        r@ == spec_quad9_addresses(),
{
    let r = vec![
        IpAddress::V4(Ipv4Address { a: 9, b: 9, c: 9, d: 9 }),
        IpAddress::V4(Ipv4Address { a: 149, b: 112, c: 112, d: 112 }),
        IpAddress::V6(
            Ipv6Address {
                s0: 0x2620,
                s1: 0x00fe,
                s2: 0,
                s3: 0,
                s4: 0,
                s5: 0,
                s6: 0,
                s7: 0x00fe,
            },
        ),
        IpAddress::V6(
            Ipv6Address {
                s0: 0x2620,
                s1: 0x00fe,
                s2: 0,
                s3: 0,
                s4: 0,
                s5: 0,
                s6: 0x00fe,
                s7: 0x0009,
            },
        ),
    ];
    proof {
        assert(r@ =~= spec_quad9_addresses());
    }
    r
}

/// The addresses selected by the run's flags and tokens, in selection
/// order, duplicates included; the first provider set substitutes when no
/// source at all was given.
pub open spec fn spec_selected_addresses(
    use_google: bool,
    use_cloudflare: bool,
    use_quad9: bool,
    user: Option<Seq<IpAddress>>,
) -> Seq<IpAddress> {
    let defaulted = !use_google && !use_cloudflare && !use_quad9 && user is None;
    (if use_google || defaulted {
        spec_google_addresses()
    } else {
        Seq::empty()
    }) + (if use_cloudflare {
        spec_cloudflare_addresses()
    } else {
        Seq::empty()
    }) + (if use_quad9 {
        spec_quad9_addresses()
    } else {
        Seq::empty()
    }) + (match user {
        Some(addrs) => addrs,
        None => Seq::empty(),
    })
}

/// The same sequence with every later repetition of an address dropped.
pub open spec fn dedup_addresses(s: Seq<IpAddress>) -> Seq<IpAddress>
    decreases s.len(),
{
    if s.len() == 0 {
        seq![]
    } else {
        dedup_addresses(s.drop_last()) + (if s.drop_last().contains(s.last()) {
            Seq::<IpAddress>::empty()
        } else {
            seq![s.last()]
        })
    }
}

/// Deduplication keeps exactly the members, once each.
pub proof fn lemma_dedup_addresses(s: Seq<IpAddress>)
    ensures
        dedup_addresses(s).no_duplicates(),
        forall|a: IpAddress| dedup_addresses(s).contains(a) <==> s.contains(a),
    decreases s.len(),
{
    if s.len() > 0 {
        let t = s.drop_last();
        lemma_dedup_addresses(t);
        let d = dedup_addresses(s);
        let dt = dedup_addresses(t);
        assert forall|a: IpAddress| d.contains(a) implies s.contains(a) by {
            let i = choose|i: int| 0 <= i < d.len() && d[i] == a;
            if i < dt.len() {
                assert(dt[i] == a);
                assert(dt.contains(a));
                assert(t.contains(a));
                let j = choose|j: int| 0 <= j < t.len() && t[j] == a;
                assert(s[j] == a);
            } else {
                assert(d[i] == s.last());
                assert(s[s.len() - 1] == a);
            }
        }
        assert forall|a: IpAddress| s.contains(a) implies d.contains(a) by {
            let i = choose|i: int| 0 <= i < s.len() && s[i] == a;
            if i < t.len() {
                assert(t[i] == a);
                assert(t.contains(a));
                assert(dt.contains(a));
                let j = choose|j: int| 0 <= j < dt.len() && dt[j] == a;
                assert(d[j] == a);
            } else {
                assert(a == s.last());
                if t.contains(a) {
                    assert(dt.contains(a));
                    let j = choose|j: int| 0 <= j < dt.len() && dt[j] == a;
                    assert(d[j] == a);
                } else {
                    assert(d[d.len() - 1] == a);
                }
            }
        }
        if !t.contains(s.last()) {
            assert(!dt.contains(s.last()));
            assert forall|i: int, j: int|
                0 <= i < d.len() && 0 <= j < d.len() && i != j implies d[i] != d[j] by {
                if i < dt.len() && j < dt.len() {
                    assert(d[i] == dt[i]);
                    assert(d[j] == dt[j]);
                } else if i < dt.len() {
                    assert(d[j] == s.last());
                    assert(d[i] == dt[i]);
                    assert(dt.contains(dt[i]));
                } else if j < dt.len() {
                    assert(d[i] == s.last());
                    assert(d[j] == dt[j]);
                    assert(dt.contains(dt[j]));
                }
            }
        } else {
            assert(d =~= dt);
        }
    }
}

/// Whether an address list holds an address.
fn contains_address(v: &Vec<IpAddress>, a: IpAddress) -> (r: bool)
    ensures
        r == v@.contains(a),
{
    let mut i: usize = 0;
    while i < v.len()
        invariant
            0 <= i <= v@.len(),
            forall|j: int| 0 <= j < i ==> v@[j] != a,
        decreases v@.len() - i,
    {
        if v[i] == a {
            return true;
        }
        i = i + 1;
    }
    false
}

/// Merge the selected provider sets and the user's addresses into one
/// deduplicated list, keeping each address's first occurrence in selection
/// order; the first provider set substitutes when no source at all was
/// given.
pub fn resolver_address_sets(
    use_google: bool,
    use_cloudflare: bool,
    use_quad9: bool,
    user: Option<Vec<IpAddress>>,
) -> (r: Vec<IpAddress>)
    ensures
        r@ == dedup_addresses(
            spec_selected_addresses(
                use_google,
                use_cloudflare,
                use_quad9,
                match user {
                    Some(v) => Some(v@),
                    None => None,
                },
            ),
        ),
{
    let defaulted = !use_google && !use_cloudflare && !use_quad9 && user.is_none();
    let mut all: Vec<IpAddress> = Vec::new();
    if use_google || defaulted {
        let mut g = google_addresses();
        all.append(&mut g);
    }
    if use_cloudflare {
        let mut c = cloudflare_addresses();
        all.append(&mut c);
    }
    if use_quad9 {
        let mut q = quad9_addresses();
        all.append(&mut q);
    }
    let ghost user_view: Option<Seq<IpAddress>> = match &user {
        Some(v) => Some(v@),
        None => None,
    };
    match user {
        Some(mut u) => {
            all.append(&mut u);
        },
        None => {},
    }
    proof {
        assert(all@ =~= spec_selected_addresses(use_google, use_cloudflare, use_quad9, user_view));
    }
    let ghost s = all@;
    let mut out: Vec<IpAddress> = Vec::new();
    let mut i: usize = 0;
    proof {
        assert(out@ =~= dedup_addresses(s.take(0)));
    }
    while i < all.len()
        invariant
            0 <= i <= s.len(),
            all@ == s,
            out@ == dedup_addresses(s.take(i as int)),
            forall|a: IpAddress| out@.contains(a) <==> s.take(i as int).contains(a),
        decreases s.len() - i,
    {
        let a = all[i];
        proof {
            assert(s.take(i as int + 1).drop_last() =~= s.take(i as int));
            assert(s.take(i as int + 1).last() == s[i as int]);
        }
        if !contains_address(&out, a) {
            out.push(a);
            proof {
                assert(out@ =~= dedup_addresses(s.take(i as int + 1)));
            }
        } else {
            proof {
                assert(out@ =~= dedup_addresses(s.take(i as int + 1)));
            }
        }
        proof {
            lemma_dedup_addresses(s.take(i as int + 1));
        }
        i = i + 1;
    }
    proof {
        assert(s.take(s.len() as int) =~= s);
    }
    out
}

} // verus!
