//! The result aggregator: drains the probe results, filters out entries
//! that carry no valid HTTP status, builds the output records, and sorts
//! addresses into the environment and license-server buckets.

use vstd::prelude::*;

use crate::addr::{address_kind, AddressKind};
use crate::chars::{
    chars_to_string, contains_sub, ex_contains_sub, ex_map_lower, fmt_nat, fmt_u64,
    lemma_fmt_nat_correct, map_lower, push_decimal, str_chars, trim,
};
use crate::error::CustomError;
use crate::probe::ProbeSuccess;

verus! {

/// A result is kept for output when it succeeded and obtained a real
/// HTTP status.
pub open spec fn is_kept(r: Result<ProbeSuccess, CustomError>) -> bool {
    match r {
        Ok(p) => p.status_code != 0,
        Err(_) => false,
    }
}

/// The output record of one kept result: address, response time, status
/// code, routing tag, country code and server environment.
pub open spec fn row_of(p: ProbeSuccess) -> Seq<Seq<char>> {
    seq![
        p.address@,
        fmt_nat(p.elapsed_ms as int),
        fmt_nat(p.status_code as int),
        p.routing_tag@,
        p.country_code@,
        p.server_env@,
    ]
}

/// The output records of a result stream, in stream order.
pub open spec fn rows_of(rs: Seq<Result<ProbeSuccess, CustomError>>) -> Seq<Seq<Seq<char>>>
    decreases rs.len(),
{
    if rs.len() == 0 {
        Seq::empty()
    } else {
        let front = rows_of(rs.drop_last());
        match rs.last() {
            Ok(p) => if p.status_code != 0 {
                front.push(row_of(p))
            } else {
                front
            },
            Err(_) => front,
        }
    }
}

/// The server environment names Cloudflare, in any casing.
pub open spec fn is_cloudflare(p: ProbeSuccess) -> bool {
    contains_sub(map_lower(p.server_env@), "cloudflare"@)
}

/// The probed address is domain-typed.
pub open spec fn is_domain_addr(p: ProbeSuccess) -> bool {
    address_kind(p.address@) == AddressKind::DomainName
}

/// The domain-typed addresses flagged as the target environment, in
/// stream order.
pub open spec fn domain_bucket_of(rs: Seq<Result<ProbeSuccess, CustomError>>) -> Seq<Seq<char>>
    decreases rs.len(),
{
    if rs.len() == 0 {
        Seq::empty()
    } else {
        let front = domain_bucket_of(rs.drop_last());
        match rs.last() {
            Ok(p) => if p.status_code != 0 && is_cloudflare(p) && is_domain_addr(p) {
                front.push(p.address@)
            } else {
                front
            },
            Err(_) => front,
        }
    }
}

/// The IP-typed addresses flagged as the target environment, in stream
/// order.
pub open spec fn ip_bucket_of(rs: Seq<Result<ProbeSuccess, CustomError>>) -> Seq<Seq<char>>
    decreases rs.len(),
{
    if rs.len() == 0 {
        Seq::empty()
    } else {
        let front = ip_bucket_of(rs.drop_last());
        match rs.last() {
            Ok(p) => if p.status_code != 0 && is_cloudflare(p) && !is_domain_addr(p) {
                front.push(p.address@)
            } else {
                front
            },
            Err(_) => front,
        }
    }
}

/// The license-server bucket entry of one result: the address itself for
/// a domain, `address:port` for an IP.
pub open spec fn license_entry(p: ProbeSuccess) -> Seq<char> {
    if is_domain_addr(p) {
        p.address@
    } else {
        p.address@ + seq![':'] + fmt_nat(p.port as int)
    }
}

/// The addresses flagged as license servers, in stream order.
pub open spec fn license_bucket_of(rs: Seq<Result<ProbeSuccess, CustomError>>) -> Seq<Seq<char>>
    decreases rs.len(),
{
    if rs.len() == 0 {
        Seq::empty()
    } else {
        let front = license_bucket_of(rs.drop_last());
        match rs.last() {
            Ok(p) => if p.status_code != 0 && p.is_license_server {
                front.push(license_entry(p))
            } else {
                front
            },
            Err(_) => front,
        }
    }
}

/// Everything the aggregator produces from one drained result stream.
pub struct AggregateOutput {
    pub rows: Vec<Vec<String>>,
    pub domain_addresses: Vec<String>,
    pub ip_addresses: Vec<String>,
    pub license_servers: Vec<String>,
}

/// A copy of a vector of strings.
fn clone_string_vec(v: &Vec<String>) -> (r: Vec<String>)
    ensures
        r.deep_view() == v.deep_view(),
{
    let mut r: Vec<String> = Vec::new();
    let mut i: usize = 0;
    while i < v.len()
        invariant
            i <= v@.len(),
            r.deep_view() =~= v.deep_view().take(i as int),
        decreases v@.len() - i,
    {
        let ghost prev = r.deep_view();
        let s = v[i].clone();
        proof {
            assert(s@ == v.deep_view()[i as int]);
        }
        r.push(s);
        i += 1;
        proof {
            assert(r.deep_view() =~~= prev.push(v.deep_view()[i as int - 1]));
            assert(v.deep_view().take(i as int) =~= v.deep_view().take(i as int - 1).push(
                v.deep_view()[i as int - 1],
            ));
            assert(r.deep_view() =~= v.deep_view().take(i as int));
        }
    }
    proof {
        assert(r.deep_view() =~= v.deep_view());
    }
    r
}

/// Consumes the whole result stream: every erroneous or status-less
/// entry is drained and dropped, every other entry becomes one output
/// record, and the addresses flagged as the target environment or as
/// license servers are collected into their buckets.
pub fn aggregate_results(results: &Vec<Result<ProbeSuccess, CustomError>>) -> (out:
    AggregateOutput)
    ensures
        out.rows.deep_view() == rows_of(results@),
        out.domain_addresses.deep_view() == domain_bucket_of(results@),
        out.ip_addresses.deep_view() == ip_bucket_of(results@),
        out.license_servers.deep_view() == license_bucket_of(results@),
{
    let ghost all = results@;
    let cloudflare = str_chars("cloudflare");
    let mut rows: Vec<Vec<String>> = Vec::new();
    let mut domain_addresses: Vec<String> = Vec::new();
    let mut ip_addresses: Vec<String> = Vec::new();
    let mut license_servers: Vec<String> = Vec::new();
    let mut i: usize = 0;
    proof {
        assert(all.take(0) =~= Seq::<Result<ProbeSuccess, CustomError>>::empty());
    }
    while i < results.len()
        invariant
            i <= all.len(),
            all == results@,
            cloudflare@ == "cloudflare"@,
            rows.deep_view() == rows_of(all.take(i as int)),
            domain_addresses.deep_view() == domain_bucket_of(all.take(i as int)),
            ip_addresses.deep_view() == ip_bucket_of(all.take(i as int)),
            license_servers.deep_view() == license_bucket_of(all.take(i as int)),
        decreases all.len() - i,
    {
        let ghost prev_rows = rows.deep_view();
        let ghost prev_dom = domain_addresses.deep_view();
        let ghost prev_ip = ip_addresses.deep_view();
        let ghost prev_lic = license_servers.deep_view();
        match &results[i] {
            Ok(p) => {
                if p.status_code != 0 {
                    let is_domain = crate::addr::determine_ipaddress_type(p.address.as_str())
                        == AddressKind::DomainName;
                    let env_chars = str_chars(p.server_env.as_str());
                    let env_lower = ex_map_lower(&env_chars);
                    let cf = ex_contains_sub(&env_lower, &cloudflare);
                    if cf {
                        if is_domain {
                            domain_addresses.push(p.address.clone());
                            proof {
                                assert(domain_addresses.deep_view() =~~= prev_dom.push(
                                    p.address@,
                                ));
                            }
                        } else {
                            ip_addresses.push(p.address.clone());
                            proof {
                                assert(ip_addresses.deep_view() =~~= prev_ip.push(p.address@));
                            }
                        }
                    }
                    if p.is_license_server {
                        if is_domain {
                            license_servers.push(p.address.clone());
                            proof {
                                assert(license_servers.deep_view() =~~= prev_lic.push(
                                    license_entry(*p),
                                ));
                            }
                        } else {
                            let mut lc = str_chars(p.address.as_str());
                            lc.push(':');
                            push_decimal(p.port as u64, &mut lc);
                            proof {
                                assert(lc@ =~= license_entry(*p));
                            }
                            license_servers.push(chars_to_string(&lc));
                            proof {
                                assert(license_servers.deep_view() =~~= prev_lic.push(
                                    license_entry(*p),
                                ));
                            }
                        }
                    }
                    let mut row: Vec<String> = Vec::new();
                    row.push(p.address.clone());
                    row.push(fmt_u64(p.elapsed_ms));
                    row.push(fmt_u64(p.status_code as u64));
                    row.push(p.routing_tag.clone());
                    row.push(p.country_code.clone());
                    row.push(p.server_env.clone());
                    proof {
                        assert(row.deep_view() =~~= row_of(*p));
                    }
                    rows.push(row);
                    proof {
                        assert(rows.deep_view() =~~= prev_rows.push(row_of(*p)));
                    }
                }
            },
            Err(_) => {},
        }
        i += 1;
        proof {
            assert(all.take(i as int).drop_last() =~= all.take(i as int - 1));
            assert(all.take(i as int).last() == all[i as int - 1]);
        }
    }
    proof {
        assert(all.take(all.len() as int) =~= all);
    }
    AggregateOutput { rows, domain_addresses, ip_addresses, license_servers }
}

/// The header row of the output table.
pub open spec fn header_row() -> Seq<Seq<char>> {
    seq![
        "address"@,
        "response_time_ms"@,
        "status_code"@,
        "routing_tag"@,
        "country_code"@,
        "server_env"@,
    ]
}

/// The trailing marker row noting that invalid entries were excluded.
pub open spec fn marker_row() -> Seq<Seq<char>> {
    seq![""@, ""@, ""@, ""@, ""@, "note: invalid entries excluded"@]
}

/// The full record list handed to the table writer: the header, every
/// output record, and — when any record was written — the trailing
/// marker.
pub open spec fn csv_records_of(rows: Seq<Seq<Seq<char>>>) -> Seq<Seq<Seq<char>>> {
    if rows.len() > 0 {
        seq![header_row()] + rows + seq![marker_row()]
    } else {
        seq![header_row()] + rows
    }
}

/// Builds one row from six strings.
fn row6(
    a: String,
    b: String,
    c: String,
    d: String,
    e: String,
    f: String,
) -> (r: Vec<String>)
    ensures
        r.deep_view() == seq![a@, b@, c@, d@, e@, f@],
{
    let mut r: Vec<String> = Vec::new();
    r.push(a);
    r.push(b);
    r.push(c);
    r.push(d);
    r.push(e);
    r.push(f);
    proof {
        assert(r.deep_view() =~~= seq![a@, b@, c@, d@, e@, f@]);
    }
    r
}

/// The record list for the table writer: header first, then every output
/// record, then the marker when any record was written.
pub fn csv_records(rows: &Vec<Vec<String>>) -> (r: Vec<Vec<String>>)
    ensures
        r.deep_view() == csv_records_of(rows.deep_view()),
{
    let mut out: Vec<Vec<String>> = Vec::new();
    let header = row6(
        String::from_str("address"),
        String::from_str("response_time_ms"),
        String::from_str("status_code"),
        String::from_str("routing_tag"),
        String::from_str("country_code"),
        String::from_str("server_env"),
    );
    out.push(header);
    let mut i: usize = 0;
    while i < rows.len()
        invariant
            i <= rows@.len(),
            out.deep_view() =~= seq![header_row()] + rows.deep_view().take(i as int),
        decreases rows@.len() - i,
    {
        let ghost prev = out.deep_view();
        let copy = clone_string_vec(&rows[i]);
        proof {
            assert(copy.deep_view() == rows@[i as int].deep_view());
            assert(rows@[i as int].deep_view() == rows.deep_view()[i as int]);
        }
        out.push(copy);
        i += 1;
        proof {
            assert(out.deep_view() =~~= prev.push(rows.deep_view()[i as int - 1]));
            assert(rows.deep_view().take(i as int) =~= rows.deep_view().take(i as int - 1).push(
                rows.deep_view()[i as int - 1],
            ));
            assert(out.deep_view() =~= seq![header_row()] + rows.deep_view().take(i as int));
        }
    }
    proof {
        assert(rows.deep_view().take(rows@.len() as int) =~= rows.deep_view());
    }
    if rows.len() > 0 {
        let ghost prev = out.deep_view();
        let marker = row6(
            String::new(),
            String::new(),
            String::new(),
            String::new(),
            String::new(),
            String::from_str("note: invalid entries excluded"),
        );
        proof {
            reveal_strlit("");
            assert(""@ =~= Seq::<char>::empty());
            assert(marker.deep_view() =~= marker_row());
        }
        out.push(marker);
        proof {
            assert(out.deep_view() =~~= prev.push(marker_row()));
            assert(out.deep_view() =~= csv_records_of(rows.deep_view()));
        }
    } else {
        proof {
            assert(out.deep_view() =~~= csv_records_of(rows.deep_view()));
        }
    }
    out
}

/// The one environment-flagged output: every domain-bucket address, then
/// every IP-bucket address.
pub fn flagged_addresses(out: &AggregateOutput) -> (r: Vec<String>)
    ensures
        r.deep_view() == out.domain_addresses.deep_view() + out.ip_addresses.deep_view(),
{
    let mut r = clone_string_vec(&out.domain_addresses);
    let mut i: usize = 0;
    while i < out.ip_addresses.len()
        invariant
            i <= out.ip_addresses@.len(),
            r.deep_view() =~= out.domain_addresses.deep_view() + out.ip_addresses.deep_view().take(
                i as int,
            ),
        decreases out.ip_addresses@.len() - i,
    {
        let ghost prev = r.deep_view();
        let s = out.ip_addresses[i].clone();
        proof {
            assert(s@ == out.ip_addresses.deep_view()[i as int]);
        }
        r.push(s);
        i += 1;
        proof {
            assert(r.deep_view() =~~= prev.push(out.ip_addresses.deep_view()[i as int - 1]));
            assert(out.ip_addresses.deep_view().take(i as int)
                =~= out.ip_addresses.deep_view().take(i as int - 1).push(
                out.ip_addresses.deep_view()[i as int - 1],
            ));
            assert(r.deep_view() =~= out.domain_addresses.deep_view()
                + out.ip_addresses.deep_view().take(i as int));
        }
    }
    proof {
        assert(out.ip_addresses.deep_view().take(out.ip_addresses@.len() as int)
            =~= out.ip_addresses.deep_view());
    }
    r
}

/// Lines joined by newlines, with no trailing newline.
pub open spec fn joined(lines: Seq<Seq<char>>) -> Seq<char>
    decreases lines.len(),
{
    if lines.len() == 0 {
        Seq::empty()
    } else if lines.len() == 1 {
        lines[0]
    } else {
        joined(lines.drop_last()) + seq!['\n'] + lines.last()
    }
}

/// Joins lines with newlines, no trailing newline.
pub fn join_lines(v: &Vec<String>) -> (r: String)
    ensures
        r@ == joined(v.deep_view()),
{
    let mut acc: Vec<char> = Vec::new();
    let mut i: usize = 0;
    while i < v.len()
        invariant
            i <= v@.len(),
            acc@ == joined(v.deep_view().take(i as int)),
        decreases v@.len() - i,
    {
        if i > 0 {
            acc.push('\n');
        }
        let chars = str_chars(v[i].as_str());
        let mut j: usize = 0;
        while j < chars.len()
            invariant
                j <= chars@.len(),
                chars@ == v.deep_view()[i as int],
                i < v@.len(),
                i > 0 ==> acc@ =~= joined(v.deep_view().take(i as int)) + seq!['\n']
                    + chars@.take(j as int),
                i == 0 ==> acc@ =~= chars@.take(j as int),
            decreases chars@.len() - j,
        {
            acc.push(chars[j]);
            j += 1;
            proof {
                if i > 0 {
                    assert(acc@ =~= joined(v.deep_view().take(i as int)) + seq!['\n']
                        + chars@.take(j as int));
                } else {
                    assert(acc@ =~= chars@.take(j as int));
                }
            }
        }
        i += 1;
        proof {
            let dv = v.deep_view();
            assert(chars@.take(chars@.len() as int) =~= chars@);
            assert(dv.take(i as int).drop_last() =~= dv.take(i as int - 1));
            assert(dv.take(i as int).last() == dv[i as int - 1]);
            if i == 1 {
                assert(joined(dv.take(1)) == dv.take(1)[0]);
                assert(acc@ =~= joined(dv.take(i as int)));
            } else {
                assert(acc@ =~= joined(dv.take(i as int)));
            }
        }
    }
    proof {
        assert(v.deep_view().take(v@.len() as int) =~= v.deep_view());
    }
    chars_to_string(&acc)
}

/// The license-server file content: the bucket's lines joined by
/// newlines, with one trailing newline.
pub fn license_server_content(v: &Vec<String>) -> (r: String)
    ensures
        r@ == joined(v.deep_view()) + seq!['\n'],
{
    let joined_part = join_lines(v);
    let r = joined_part.concat("\n");
    proof {
        reveal_strlit("\n");
        assert("\n"@ =~= seq!['\n']);
    }
    r
}

/// Whether an output file should be written at all: yes exactly when the
/// content is more than whitespace.
pub fn should_write(content: &str) -> (r: bool)
    ensures
        r == (trim(content@).len() != 0),
{
    let chars = str_chars(content);
    let trimmed = crate::chars::ex_trim(&chars);
    trimmed.len() > 0
}

/// Every output record carries a non-zero status-code field: the records
/// of excluded results never reach the table.
pub proof fn lemma_rows_exclude_zero_status(rs: Seq<Result<ProbeSuccess, CustomError>>)
    ensures
        forall|i: int|
            0 <= i < rows_of(rs).len() ==> (#[trigger] rows_of(rs)[i]).len() == 6 && rows_of(
                rs,
            )[i][2] != "0"@,
    decreases rs.len(),
{
    reveal_strlit("0");
    if rs.len() > 0 {
        lemma_rows_exclude_zero_status(rs.drop_last());
        let front = rows_of(rs.drop_last());
        match rs.last() {
            Ok(p) => {
                if p.status_code != 0 {
                    lemma_fmt_nat_correct(p.status_code as int);
                    assert(fmt_nat(p.status_code as int)[0] != '0');
                    assert(rows_of(rs) == front.push(row_of(p)));
                    assert(row_of(p)[2] == fmt_nat(p.status_code as int));
                    assert(row_of(p)[2] != "0"@);
                }
            },
            Err(_) => {},
        }
    }
}

} // verus!
