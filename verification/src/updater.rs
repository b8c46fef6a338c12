//! The reconciliation core: matching requested names to account domains and
//! records, planning what each cycle reports or writes, and the decisions
//! that drive the loop. The loop's waiting, fetching and writing happen
//! outside the library and follow the decisions made here.

use vstd::prelude::*;
use vstd::string::*;
use crate::address::{spec_is_cgnat, WanAddress};
use crate::cli::AppError;
use crate::digitalocean::{Domain, QueryError, Record};
use crate::text::{join_dot, lower_of, lowercase, str_ends_with, str_eq, spec_decimal, u32_decimal};
use crate::wan_ip_query::WanIpError;

verus! {

/// Does the requested name fall under the domain? The domain's name must be
/// a suffix of the requested name, comparing case-insensitively.
pub open spec fn spec_domain_matches(fqdn: Seq<char>, domain_name: Seq<char>) -> bool {
    lower_of(domain_name).is_suffix_of(lower_of(fqdn))
}

/// The matcher assigns `fqdn` to the domain at `j` exactly when that domain
/// matches and every other matching domain has a shorter name, or an equally
/// long name and a later position. Longest suffix wins; the earliest entry
/// wins a tie.
pub open spec fn spec_is_chosen(fqdn: Seq<char>, domains: Seq<Domain>, j: int) -> bool {
    &&& 0 <= j < domains.len()
    &&& spec_domain_matches(fqdn, domains[j].name@)
    &&& forall|k: int|
        0 <= k < domains.len() && spec_domain_matches(fqdn, (#[trigger] domains[k]).name@)
            ==> domains[k].name@.len() < domains[j].name@.len() || (domains[k].name@.len()
            == domains[j].name@.len() && j <= k)
}

/// Does any account domain match the requested name?
pub open spec fn spec_has_match(fqdn: Seq<char>, domains: Seq<Domain>) -> bool {
    exists|k: int|
        0 <= k < domains.len() && spec_domain_matches(fqdn, (#[trigger] domains[k]).name@)
}

/// At most one domain is chosen for a requested name.
pub proof fn lemma_chosen_unique(fqdn: Seq<char>, domains: Seq<Domain>, a: int, b: int)
    requires
        spec_is_chosen(fqdn, domains, a),
        spec_is_chosen(fqdn, domains, b),
    ensures
        a == b,
{
    assert(spec_domain_matches(fqdn, domains[a].name@));
    assert(spec_domain_matches(fqdn, domains[b].name@));
}

/// A requested name that ends with a domain's name, case-insensitively,
/// while every other matching domain has a strictly shorter name, is
/// assigned to that domain.
pub proof fn lemma_suffix_match_assigns(fqdn: Seq<char>, domains: Seq<Domain>, j: int)
    requires
        0 <= j < domains.len(),
        spec_domain_matches(fqdn, domains[j].name@),
        forall|k: int|
            0 <= k < domains.len() && k != j && spec_domain_matches(
                fqdn,
                (#[trigger] domains[k]).name@,
            ) ==> domains[k].name@.len() < domains[j].name@.len(),
    ensures
        spec_is_chosen(fqdn, domains, j),
{
}

/// A requested name that no domain matches is chosen by none.
pub proof fn lemma_unmatched_chosen_by_none(fqdn: Seq<char>, domains: Seq<Domain>)
    requires
        !spec_has_match(fqdn, domains),
    ensures
        forall|j: int| !spec_is_chosen(fqdn, domains, j),
{
}

/// The domain chosen for `fqdn`, as an index into `domains`: the longest
/// case-insensitive suffix match, the earliest on equal length.
pub fn choose_domain_for(fqdn: &str, domains: &Vec<Domain>) -> (r: Option<usize>)
    ensures
        match r {
            Some(j) => spec_is_chosen(fqdn@, domains@, j as int),
            None => !spec_has_match(fqdn@, domains@),
        },
{
    let fl = lowercase(fqdn);
    let mut best: Option<usize> = None;
    let mut best_len: usize = 0;
    let mut k: usize = 0;
    while k < domains.len()
        invariant
            k <= domains@.len(),
            fl@ == lower_of(fqdn@),
            match best {
                Some(b) => b < k && spec_domain_matches(fqdn@, domains@[b as int].name@)
                    && best_len == domains@[b as int].name@.len() && forall|t: int|
                    0 <= t < k && spec_domain_matches(fqdn@, (#[trigger] domains@[t]).name@)
                        ==> domains@[t].name@.len() < domains@[b as int].name@.len() || (
                    domains@[t].name@.len() == domains@[b as int].name@.len() && b <= t),
                None => forall|t: int|
                    0 <= t < k ==> !spec_domain_matches(fqdn@, (#[trigger] domains@[t]).name@),
            },
        decreases domains@.len() - k,
    {
        let dl = lowercase(domains[k].name.as_str());
        if str_ends_with(fl.as_str(), dl.as_str()) {
            let klen = domains[k].name.as_str().unicode_len();
            match best {
                None => {
                    best = Some(k);
                    best_len = klen;
                },
                Some(_) => {
                    if klen > best_len {
                        best = Some(k);
                        best_len = klen;
                    }
                },
            }
        }
        k += 1;
    }
    best
}

/// One matched domain and the requested names that chose it, in input order.
pub struct DomainGroup {
    /// The domain, as an index into the account-domain list.
    pub domain_index: usize,
    /// The requested names that chose this domain, in the order given.
    pub fqdns: Vec<String>,
}

/// The per-cycle correlation of requested names to account domains: one
/// group per matched domain, and the names no domain matches.
pub struct DomainRecordMap {
    /// One group for each domain some name chose, ordered by first choice.
    pub groups: Vec<DomainGroup>,
    /// The names matching no account domain, in input order.
    pub unknown: Vec<String>,
}

/// Keeps a requested name exactly when no domain matches it.
pub open spec fn spec_unmatched_pred(domains: Seq<Domain>) -> spec_fn(Seq<char>) -> bool {
    |f: Seq<char>| !spec_has_match(f, domains)
}

/// Keeps a requested name exactly when the matcher assigns it to the domain
/// at `j`.
pub open spec fn spec_chosen_pred(domains: Seq<Domain>, j: int) -> spec_fn(Seq<char>) -> bool {
    |f: Seq<char>| spec_is_chosen(f, domains, j)
}

/// The views of the requested names.
pub open spec fn spec_arg_views(args: Seq<String>) -> Seq<Seq<char>> {
    args.map_values(|t: String| t@)
}

/// Does some group stand for the domain at `j`?
pub open spec fn spec_has_group(groups: Seq<DomainGroup>, j: int) -> bool {
    exists|g: int| 0 <= g < groups.len() && (#[trigger] groups[g]).domain_index == j
}

/// Correlate each requested name with the account domain it falls under.
/// Unmatched names land in `unknown`, in input order; matched names are
/// grouped by their chosen domain, keeping input order within a group.
#[verifier::loop_isolation(false)]
pub fn map_domain_args_to_account_domains(
    domain_args: &Vec<String>,
    account_domains: &Vec<Domain>,
) -> (r: DomainRecordMap)
    ensures
        r.unknown@.map_values(|t: String| t@) == spec_arg_views(domain_args@).filter(
            spec_unmatched_pred(account_domains@),
        ),
        forall|g: int|
            0 <= g < r.groups@.len() ==> (#[trigger] r.groups@[g]).domain_index
                < account_domains@.len(),
        forall|g: int|
            0 <= g < r.groups@.len() ==> (#[trigger] r.groups@[g]).fqdns@.map_values(
                |t: String| t@,
            ) == spec_arg_views(domain_args@).filter(
                spec_chosen_pred(account_domains@, r.groups@[g].domain_index as int),
            ),
        forall|g: int| 0 <= g < r.groups@.len() ==> (#[trigger] r.groups@[g]).fqdns@.len() > 0,
        forall|g1: int, g2: int|
            0 <= g1 < r.groups@.len() && 0 <= g2 < r.groups@.len() && g1 != g2 ==> (
            #[trigger] r.groups@[g1]).domain_index != (#[trigger] r.groups@[g2]).domain_index,
        forall|i: int, j: int|
            0 <= i < domain_args@.len() && #[trigger] spec_is_chosen(
                domain_args@[i]@,
                account_domains@,
                j,
            ) ==> spec_has_group(r.groups@, j),
{
    broadcast use vstd::seq_lib::group_seq_properties;

    let n = domain_args.len();
    let mut choices: Vec<Option<usize>> = Vec::new();
    let mut i: usize = 0;
    while i < n
        invariant
            i <= n,
            n == domain_args@.len(),
            choices@.len() == i,
            forall|t: int|
                0 <= t < i ==> match #[trigger] choices@[t] {
                    Some(j) => spec_is_chosen(domain_args@[t]@, account_domains@, j as int),
                    None => !spec_has_match(domain_args@[t]@, account_domains@),
                },
        decreases n - i,
    {
        let c = choose_domain_for(domain_args[i].as_str(), account_domains);
        choices.push(c);
        i += 1;
    }

    let mut unknown: Vec<String> = Vec::new();
    let mut i2: usize = 0;
    while i2 < n
        invariant
            i2 <= n,
            n == domain_args@.len(),
            choices@.len() == n,
            forall|t: int|
                0 <= t < n ==> match #[trigger] choices@[t] {
                    Some(j) => spec_is_chosen(domain_args@[t]@, account_domains@, j as int),
                    None => !spec_has_match(domain_args@[t]@, account_domains@),
                },
            unknown@.map_values(|t: String| t@) == spec_arg_views(domain_args@).subrange(
                0,
                i2 as int,
            ).filter(spec_unmatched_pred(account_domains@)),
        decreases n - i2,
    {
        let ghost av = spec_arg_views(domain_args@);
        let ghost up = spec_unmatched_pred(account_domains@);
        proof {
            reveal(Seq::filter);
            assert(av[i2 as int] == domain_args@[i2 as int]@);
            assert(av.subrange(0, i2 + 1).drop_last() =~= av.subrange(0, i2 as int));
            assert(av.subrange(0, i2 + 1).last() == av[i2 as int]);
        }
        match choices[i2] {
            None => {
                unknown.push(domain_args[i2].clone());
                proof {
                    assert(up(av[i2 as int]));
                    assert(unknown@.map_values(|t: String| t@) =~= unknown@.drop_last().map_values(
                        |t: String| t@,
                    ).push(domain_args@[i2 as int]@));
                    assert(av.subrange(0, i2 + 1).filter(up) =~= av.subrange(0, i2 as int).filter(
                        up,
                    ).push(av[i2 as int]));
                }
            },
            Some(_) => {
                proof {
                    assert(!up(av[i2 as int]));
                    assert(av.subrange(0, i2 + 1).filter(up) =~= av.subrange(0, i2 as int).filter(
                        up,
                    ));
                }
            },
        }
        i2 += 1;
    }
    proof {
        assert(spec_arg_views(domain_args@).subrange(0, n as int) =~= spec_arg_views(
            domain_args@,
        ));
    }

    let mut groups: Vec<DomainGroup> = Vec::new();
    let mut i3: usize = 0;
    while i3 < n
        invariant
            i3 <= n,
            n == domain_args@.len(),
            choices@.len() == n,
            forall|t: int|
                0 <= t < n ==> match #[trigger] choices@[t] {
                    Some(j) => spec_is_chosen(domain_args@[t]@, account_domains@, j as int),
                    None => !spec_has_match(domain_args@[t]@, account_domains@),
                },
            forall|g: int|
                0 <= g < groups@.len() ==> (#[trigger] groups@[g]).domain_index
                    < account_domains@.len(),
            forall|g: int|
                0 <= g < groups@.len() ==> (#[trigger] groups@[g]).fqdns@.map_values(
                    |t: String| t@,
                ) == spec_arg_views(domain_args@).filter(
                    spec_chosen_pred(account_domains@, groups@[g].domain_index as int),
                ),
            forall|g: int| 0 <= g < groups@.len() ==> (#[trigger] groups@[g]).fqdns@.len() > 0,
            forall|g1: int, g2: int|
                0 <= g1 < groups@.len() && 0 <= g2 < groups@.len() && g1 != g2 ==> (
                #[trigger] groups@[g1]).domain_index != (#[trigger] groups@[g2]).domain_index,
            forall|t: int|
                0 <= t < i3 ==> match #[trigger] choices@[t] {
                    Some(j) => exists|g: int|
                        0 <= g < groups@.len() && (#[trigger] groups@[g]).domain_index == j,
                    None => true,
                },
        decreases n - i3,
    {
        match choices[i3] {
            Some(j) => {
                let mut present = false;
                let mut g: usize = 0;
                while g < groups.len()
                    invariant
                        g <= groups@.len(),
                        present ==> exists|h: int|
                            0 <= h < groups@.len() && (#[trigger] groups@[h]).domain_index == j,
                        !present ==> forall|h: int|
                            0 <= h < g ==> (#[trigger] groups@[h]).domain_index != j,
                    decreases groups@.len() - g,
                {
                    if groups[g].domain_index == j {
                        present = true;
                        break;
                    }
                    g += 1;
                }
                if !present {
                    let mut fq: Vec<String> = Vec::new();
                    let mut t: usize = 0;
                    while t < n
                        invariant
                            t <= n,
                            n == domain_args@.len(),
                            choices@.len() == n,
                            forall|u: int|
                                0 <= u < n ==> match #[trigger] choices@[u] {
                                    Some(w) => spec_is_chosen(
                                        domain_args@[u]@,
                                        account_domains@,
                                        w as int,
                                    ),
                                    None => !spec_has_match(domain_args@[u]@, account_domains@),
                                },
                            fq@.map_values(|x: String| x@) == spec_arg_views(
                                domain_args@,
                            ).subrange(0, t as int).filter(
                                spec_chosen_pred(account_domains@, j as int),
                            ),
                        decreases n - t,
                    {
                        let ghost av = spec_arg_views(domain_args@);
                        let ghost cp = spec_chosen_pred(account_domains@, j as int);
                        proof {
                            reveal(Seq::filter);
                            assert(av[t as int] == domain_args@[t as int]@);
                            assert(av.subrange(0, t + 1).drop_last() =~= av.subrange(0, t as int));
                            assert(av.subrange(0, t + 1).last() == av[t as int]);
                        }
                        let same = match choices[t] {
                            Some(w) => w == j,
                            None => false,
                        };
                        if same {
                            fq.push(domain_args[t].clone());
                            proof {
                                assert(cp(av[t as int]));
                                assert(fq@.map_values(|x: String| x@)
                                    =~= fq@.drop_last().map_values(|x: String| x@).push(
                                    domain_args@[t as int]@,
                                ));
                                assert(av.subrange(0, t + 1).filter(cp) =~= av.subrange(
                                    0,
                                    t as int,
                                ).filter(cp).push(av[t as int]));
                            }
                        } else {
                            proof {
                                match choices@[t as int] {
                                    Some(w) => {
                                        if spec_is_chosen(av[t as int], account_domains@, j as int) {
                                            lemma_chosen_unique(
                                                av[t as int],
                                                account_domains@,
                                                w as int,
                                                j as int,
                                            );
                                        }
                                    },
                                    None => {
                                        lemma_unmatched_chosen_by_none(
                                            av[t as int],
                                            account_domains@,
                                        );
                                    },
                                }
                                assert(!cp(av[t as int]));
                                assert(av.subrange(0, t + 1).filter(cp) =~= av.subrange(
                                    0,
                                    t as int,
                                ).filter(cp));
                            }
                        }
                        t += 1;
                    }
                    proof {
                        assert(spec_arg_views(domain_args@).subrange(0, n as int)
                            =~= spec_arg_views(domain_args@));
                    }
                    proof {
                        let av = spec_arg_views(domain_args@);
                        let cp = spec_chosen_pred(account_domains@, j as int);
                        assert(cp(av[i3 as int]));
                        av.lemma_filter_contains(cp, i3 as int);
                        assert(fq@.map_values(|x: String| x@).len() > 0);
                    }
                    let ghost groups0 = groups@;
                    groups.push(DomainGroup { domain_index: j, fqdns: fq });
                    proof {
                        assert(groups@.len() == groups0.len() + 1);
                        assert(groups@[groups0.len() as int].domain_index == j);
                        assert(forall|h: int|
                            0 <= h < groups0.len() ==> #[trigger] groups@[h] == groups0[h]);
                        assert forall|t: int|
                            0 <= t < i3 + 1 implies match #[trigger] choices@[t] {
                            Some(w) => exists|g: int|
                                0 <= g < groups@.len() && (#[trigger] groups@[g]).domain_index
                                    == w,
                            None => true,
                        } by {
                            if t < i3 {
                                match choices@[t] {
                                    Option::Some(w) => {
                                        let g0 = choose|g: int|
                                            0 <= g < groups0.len() && (
                                            #[trigger] groups0[g]).domain_index == w;
                                        assert(groups@[g0].domain_index == w);
                                    },
                                    Option::None => {},
                                }
                            } else {
                                assert(groups@[groups0.len() as int].domain_index == j);
                            }
                        }
                    }
                }
            },
            None => {},
        }
        i3 += 1;
    }
    proof {
        assert forall|i: int, j: int|
            0 <= i < domain_args@.len() && #[trigger] spec_is_chosen(
                domain_args@[i]@,
                account_domains@,
                j,
            ) implies spec_has_group(groups@, j) by {
            match choices@[i] {
                Some(w) => {
                    lemma_chosen_unique(domain_args@[i]@, account_domains@, w as int, j);
                    let g0 = choose|g: int|
                        0 <= g < groups@.len() && (#[trigger] groups@[g]).domain_index == w;
                    assert(groups@[g0].domain_index == j);
                    assert(spec_has_group(groups@, j));
                },
                None => {
                    assert(spec_domain_matches(domain_args@[i]@, account_domains@[j].name@));
                    assert(spec_has_match(domain_args@[i]@, account_domains@));
                },
            }
        }
    }
    DomainRecordMap { groups, unknown }
}


/// Is this the record for `fqdn` under the domain: the right type, and its
/// relative name joined to the domain's name spells the requested name,
/// case-insensitively?
pub open spec fn spec_record_matches(
    rec: Record,
    domain_name: Seq<char>,
    fqdn: Seq<char>,
    wan_type: Seq<char>,
) -> bool {
    rec.ty@ == wan_type && lower_of(rec.name@) + seq!['.'] + lower_of(domain_name) == lower_of(
        fqdn,
    )
}

/// The index of the first matching record at or after `from`.
pub open spec fn spec_find_record(
    records: Seq<Record>,
    domain_name: Seq<char>,
    fqdn: Seq<char>,
    wan_type: Seq<char>,
    from: int,
) -> Option<int>
    decreases records.len() - from,
{
    if from < 0 || from >= records.len() {
        None
    } else if spec_record_matches(records[from], domain_name, fqdn, wan_type) {
        Some(from)
    } else {
        spec_find_record(records, domain_name, fqdn, wan_type, from + 1)
    }
}

proof fn lemma_find_record_some(
    records: Seq<Record>,
    dn: Seq<char>,
    f: Seq<char>,
    ty: Seq<char>,
    from: int,
    i: int,
)
    requires
        0 <= from <= i < records.len(),
        spec_record_matches(records[i], dn, f, ty),
        forall|k: int| from <= k < i ==> !spec_record_matches(#[trigger] records[k], dn, f, ty),
    ensures
        spec_find_record(records, dn, f, ty, from) == Some(i),
    decreases i - from,
{
    if from < i {
        lemma_find_record_some(records, dn, f, ty, from + 1, i);
    }
}

proof fn lemma_find_record_none(
    records: Seq<Record>,
    dn: Seq<char>,
    f: Seq<char>,
    ty: Seq<char>,
    from: int,
)
    requires
        forall|k: int|
            from <= k < records.len() ==> !spec_record_matches(#[trigger] records[k], dn, f, ty),
    ensures
        spec_find_record(records, dn, f, ty, from) is None,
    decreases records.len() - from,
{
    if 0 <= from < records.len() {
        lemma_find_record_none(records, dn, f, ty, from + 1);
    }
}

/// With exactly one matching record in the set, that record is the one
/// selected; with none, nothing is selected and the name is reported
/// missing.
pub proof fn lemma_single_record_selected(
    records: Seq<Record>,
    dn: Seq<char>,
    f: Seq<char>,
    ty: Seq<char>,
    i: int,
)
    requires
        0 <= i < records.len(),
        spec_record_matches(records[i], dn, f, ty),
        forall|k: int|
            0 <= k < records.len() && k != i ==> !spec_record_matches(
                #[trigger] records[k],
                dn,
                f,
                ty,
            ),
    ensures
        spec_find_record(records, dn, f, ty, 0) == Some(i),
{
    lemma_find_record_some(records, dn, f, ty, 0, i);
}

/// With no matching record, nothing is selected.
pub proof fn lemma_no_record_selected(records: Seq<Record>, dn: Seq<char>, f: Seq<char>, ty: Seq<char>)
    requires
        forall|k: int|
            0 <= k < records.len() ==> !spec_record_matches(#[trigger] records[k], dn, f, ty),
    ensures
        spec_find_record(records, dn, f, ty, 0) is None,
{
    lemma_find_record_none(records, dn, f, ty, 0);
}

/// The first record of the right type whose name under the domain spells
/// `fqdn`, if there is one.
pub fn find_record(
    records: &Vec<Record>,
    domain_name: &str,
    fqdn: &str,
    wan_type: &str,
) -> (r: Option<usize>)
    ensures
        match r {
            Some(k) => k < records@.len() && spec_find_record(
                records@,
                domain_name@,
                fqdn@,
                wan_type@,
                0,
            ) == Some(k as int) && spec_record_matches(
                records@[k as int],
                domain_name@,
                fqdn@,
                wan_type@,
            ),
            None => spec_find_record(records@, domain_name@, fqdn@, wan_type@, 0) is None,
        },
{
    let fl = lowercase(fqdn);
    let dl = lowercase(domain_name);
    let mut k: usize = 0;
    while k < records.len()
        invariant
            k <= records@.len(),
            fl@ == lower_of(fqdn@),
            dl@ == lower_of(domain_name@),
            forall|t: int|
                0 <= t < k ==> !spec_record_matches(
                    #[trigger] records@[t],
                    domain_name@,
                    fqdn@,
                    wan_type@,
                ),
        decreases records@.len() - k,
    {
        let rec = &records[k];
        if str_eq(rec.ty.as_str(), wan_type) {
            let nl = lowercase(rec.name.as_str());
            let full = join_dot(nl.as_str(), dl.as_str());
            if str_eq(full.as_str(), fl.as_str()) {
                proof {
                    lemma_find_record_some(
                        records@,
                        domain_name@,
                        fqdn@,
                        wan_type@,
                        0,
                        k as int,
                    );
                }
                return Some(k);
            }
        }
        k += 1;
    }
    proof {
        lemma_find_record_none(records@, domain_name@, fqdn@, wan_type@, 0);
    }
    None
}

/// What one cycle does for one requested name of a domain.
#[derive(Debug)]
pub enum RecordPlan {
    /// The record already holds the WAN address: nothing to write.
    UpToDate { fqdn: String, current: String, ttl: i32 },
    /// The record holds another value: write the WAN address.
    NeedsUpdate {
        fqdn: String,
        record_index: usize,
        record_id: i32,
        record_type: String,
        old_value: String,
        ttl: i32,
        new_value: String,
    },
    /// No record of the right type spells the requested name.
    Missing { fqdn: String },
}

/// Is `p` the right plan entry for `f`? Missing when no record is selected;
/// up to date when the selected record already holds the WAN text; otherwise
/// a write of the WAN text to the selected record, everything else kept.
pub open spec fn spec_plan_entry_ok(
    p: RecordPlan,
    records: Seq<Record>,
    dn: Seq<char>,
    f: Seq<char>,
    ty: Seq<char>,
    wan_text: Seq<char>,
) -> bool {
    match spec_find_record(records, dn, f, ty, 0) {
        None => p matches RecordPlan::Missing { fqdn } && fqdn@ == f,
        Some(i) => {
            if records[i].data@ == wan_text {
                p matches RecordPlan::UpToDate { fqdn, current, ttl } && fqdn@ == f && current@
                    == records[i].data@ && ttl == records[i].ttl
            } else {
                p matches RecordPlan::NeedsUpdate {
                    fqdn,
                    record_index,
                    record_id,
                    record_type,
                    old_value,
                    ttl,
                    new_value,
                } && fqdn@ == f && record_index == i && record_id == records[i].id
                    && record_type@ == records[i].ty@ && old_value@ == records[i].data@ && ttl
                    == records[i].ttl && new_value@ == wan_text
            }
        },
    }
}

/// The plan for one domain: one entry per requested name, in order. In
/// dry-run mode the plan is only reported; in apply mode each `NeedsUpdate`
/// entry becomes one write, and the rest become none.
pub fn plan_for_domain(
    wan_type: &str,
    wan_text: &str,
    domain_name: &str,
    fqdns: &Vec<String>,
    records: &Vec<Record>,
) -> (r: Vec<RecordPlan>)
    ensures
        r@.len() == fqdns@.len(),
        forall|i: int|
            0 <= i < fqdns@.len() ==> spec_plan_entry_ok(
                #[trigger] r@[i],
                records@,
                domain_name@,
                fqdns@[i]@,
                wan_type@,
                wan_text@,
            ),
{
    let mut r: Vec<RecordPlan> = Vec::new();
    let mut i: usize = 0;
    while i < fqdns.len()
        invariant
            i <= fqdns@.len(),
            r@.len() == i,
            forall|t: int|
                0 <= t < i ==> spec_plan_entry_ok(
                    #[trigger] r@[t],
                    records@,
                    domain_name@,
                    fqdns@[t]@,
                    wan_type@,
                    wan_text@,
                ),
        decreases fqdns@.len() - i,
    {
        let fqdn = &fqdns[i];
        let entry = match find_record(records, domain_name, fqdn.as_str(), wan_type) {
            None => RecordPlan::Missing { fqdn: fqdn.clone() },
            Some(k) => {
                let rec = &records[k];
                if str_eq(rec.data.as_str(), wan_text) {
                    RecordPlan::UpToDate {
                        fqdn: fqdn.clone(),
                        current: rec.data.clone(),
                        ttl: rec.ttl,
                    }
                } else {
                    RecordPlan::NeedsUpdate {
                        fqdn: fqdn.clone(),
                        record_index: k,
                        record_id: rec.id,
                        record_type: rec.ty.clone(),
                        old_value: rec.data.clone(),
                        ttl: rec.ttl,
                        new_value: String::from_str(wan_text),
                    }
                }
            },
        };
        r.push(entry);
        i += 1;
    }
    r
}

proof fn lemma_find_record_ignores_data(
    records1: Seq<Record>,
    records2: Seq<Record>,
    dn: Seq<char>,
    f: Seq<char>,
    ty: Seq<char>,
    from: int,
)
    requires
        records2.len() == records1.len(),
        forall|k: int|
            0 <= k < records1.len() ==> (#[trigger] records2[k]).ty@ == records1[k].ty@ && records2[
                k
            ].name@ == records1[k].name@,
    ensures
        spec_find_record(records2, dn, f, ty, from) == spec_find_record(
            records1,
            dn,
            f,
            ty,
            from,
        ),
    decreases records1.len() - from,
{
    if 0 <= from < records1.len() {
        assert(spec_record_matches(records2[from], dn, f, ty) == spec_record_matches(
            records1[from],
            dn,
            f,
            ty,
        ));
        lemma_find_record_ignores_data(records1, records2, dn, f, ty, from + 1);
    }
}

/// Running the updating cycle twice with an unchanged WAN address writes
/// nothing the second time. `records1` is the record set the first run saw;
/// `records2` is the set after its writes: types and names unchanged, each
/// record's data either untouched or set to the WAN text, and the record the
/// first run selected for `f` now holds the WAN text. The second run then
/// selects the same record and finds it up to date: its plan entry for `f`
/// is never a write.
pub proof fn lemma_second_run_plans_no_write(
    records1: Seq<Record>,
    records2: Seq<Record>,
    dn: Seq<char>,
    f: Seq<char>,
    ty: Seq<char>,
    wan_text: Seq<char>,
    second_entry: RecordPlan,
)
    requires
        records2.len() == records1.len(),
        forall|k: int|
            0 <= k < records1.len() ==> (#[trigger] records2[k]).ty@ == records1[k].ty@ && records2[
                k
            ].name@ == records1[k].name@,
        match spec_find_record(records1, dn, f, ty, 0) {
            Some(i) => records2[i].data@ == wan_text,
            None => true,
        },
        spec_plan_entry_ok(second_entry, records2, dn, f, ty, wan_text),
    ensures
        !(second_entry matches RecordPlan::NeedsUpdate { .. }),
        spec_find_record(records2, dn, f, ty, 0) == spec_find_record(records1, dn, f, ty, 0),
{
    lemma_find_record_ignores_data(records1, records2, dn, f, ty, 0);
}

/// What the cycle does with the resolver's outcome.
pub enum WanDecision {
    /// A usable public address: carry on with the cycle.
    Proceed(WanAddress),
    /// A transient failure in apply mode: retry the cycle after the backoff.
    Retry(WanIpError),
    /// A fatal condition: end the program with this error.
    Fail(AppError),
}

/// A carrier-grade-NAT address is always fatal — retrying cannot mend a
/// broken address. Any other resolver failure is retried in apply mode and
/// fatal in dry-run, which must not hang retrying.
pub fn decide_wan_outcome(apply: bool, outcome: Result<WanAddress, WanIpError>) -> (r: WanDecision)
    ensures
        match outcome {
            Ok(a) => if spec_is_cgnat(a) {
                r == WanDecision::Fail(AppError::CgNatWanIp(a))
            } else {
                r == WanDecision::Proceed(a)
            },
            Err(e) => if apply {
                r == WanDecision::Retry(e)
            } else {
                r == WanDecision::Fail(AppError::TestFailedToQueryWanIp(e))
            },
        },
{
    match outcome {
        Ok(a) => {
            if a.is_cgnat() {
                WanDecision::Fail(AppError::CgNatWanIp(a))
            } else {
                WanDecision::Proceed(a)
            }
        },
        Err(e) => {
            if apply {
                WanDecision::Retry(e)
            } else {
                WanDecision::Fail(AppError::TestFailedToQueryWanIp(e))
            }
        },
    }
}

/// The words of a provider failure, as the program logs and wraps them.
pub open spec fn spec_query_error_text(e: QueryError) -> Seq<char> {
    match e {
        QueryError::RateLimited(m) => "RateLimited: "@ + m@,
        QueryError::Unauthorized(m) => "Unauthorized: "@ + m@,
        QueryError::NotFound(m) => "NotFound: "@ + m@,
        QueryError::ServerError(m) => "ServerError: "@ + m@,
        QueryError::UnexpectedStatus(c) => "Unexpected status code: "@ + spec_decimal(c as int),
        QueryError::ReqwestError(m) => "SerializationError: "@ + m@,
    }
}

impl QueryError {
    /// The words of this failure.
    pub fn describe(&self) -> (r: String)
        ensures
            r@ == spec_query_error_text(*self),
    {
        match self {
            QueryError::RateLimited(m) => {
                let mut r = String::from_str("RateLimited: ");
                r.append(m.as_str());
                r
            },
            QueryError::Unauthorized(m) => {
                let mut r = String::from_str("Unauthorized: ");
                r.append(m.as_str());
                r
            },
            QueryError::NotFound(m) => {
                let mut r = String::from_str("NotFound: ");
                r.append(m.as_str());
                r
            },
            QueryError::ServerError(m) => {
                let mut r = String::from_str("ServerError: ");
                r.append(m.as_str());
                r
            },
            QueryError::UnexpectedStatus(c) => {
                let mut r = String::from_str("Unexpected status code: ");
                let num = u32_decimal(*c as u32);
                r.append(num.as_str());
                r
            },
            QueryError::ReqwestError(m) => {
                let mut r = String::from_str("SerializationError: ");
                r.append(m.as_str());
                r
            },
        }
    }
}

/// What the cycle does with the domain listing's outcome.
pub enum DomainsDecision {
    /// The account's domains: carry on with the cycle.
    Proceed(Vec<Domain>),
    /// A transient failure in apply mode: retry the cycle after the backoff.
    Retry(QueryError),
    /// A fatal condition: end the program with this error.
    Fail(AppError),
}

/// A rejected credential is always fatal — it is not a transient condition.
/// Any other failure is retried in apply mode and fatal in dry-run.
pub fn decide_domains_outcome(
    apply: bool,
    outcome: Result<Vec<Domain>, QueryError>,
) -> (r: DomainsDecision)
    ensures
        match outcome {
            Ok(ds) => r == DomainsDecision::Proceed(ds),
            Err(e) => match e {
                QueryError::Unauthorized(_) => r == DomainsDecision::Fail(
                    AppError::TestFailedDOKeyValidation,
                ),
                _ => if apply {
                    r == DomainsDecision::Retry(e)
                } else {
                    r matches DomainsDecision::Fail(a) && a matches AppError::OtherError(m) && m@
                        == spec_query_error_text(e)
                },
            },
        },
{
    match outcome {
        Ok(ds) => DomainsDecision::Proceed(ds),
        Err(e) => {
            match e {
                QueryError::Unauthorized(_) => DomainsDecision::Fail(
                    AppError::TestFailedDOKeyValidation,
                ),
                _ => {
                    if apply {
                        DomainsDecision::Retry(e)
                    } else {
                        let m = e.describe();
                        DomainsDecision::Fail(AppError::OtherError(m))
                    }
                },
            }
        },
    }
}

/// How a cycle ends: the seconds to sleep before the next cycle, or nothing
/// when the program is done after one pass. The loop repeats only in apply
/// mode with a positive interval, configured in minutes.
pub fn decide_after_cycle(apply: bool, update_interval: Option<i64>) -> (r: Option<u64>)
    requires
        match update_interval {
            Some(m) => 0 <= m && m * 60 <= u64::MAX,
            None => true,
        },
    ensures
        match update_interval {
            Some(m) => if apply && m != 0 {
                r == Some((m * 60) as u64)
            } else {
                r is None
            },
            None => r is None,
        },
{
    if !apply {
        return None;
    }
    match update_interval {
        Some(m) => {
            if m == 0 {
                None
            } else {
                Some((m as u64) * 60)
            }
        },
        None => None,
    }
}

} // verus!
