//! What the daemon asks of the operating system's `ip` command, and what it reads back.
use vstd::prelude::*;
use crate::net::{IpNet, ip_net_text, ip_address_text, format_ip_net, format_ip_address};
use crate::text::{chars_of, string_from_chars, decode_utf8, utf8_decode, spec_decimal, decimal_text};
use crate::types::Route;

verus! {

/// Why the interface list could not be read.
#[derive(Debug, Clone, Copy, PartialEq, Eq, Structural)]
pub enum SystemError {
    /// The command's output is not UTF-8.
    InvalidUtf8,
}

/// The end of the line starting at `start`: the next `'\n'`, or the text's end.
pub open spec fn spec_line_end(t: Seq<char>, start: int) -> int
    decreases t.len() - start,
{
    if start >= t.len() {
        t.len() as int
    } else if t[start] == '\n' {
        start
    } else {
        spec_line_end(t, start + 1)
    }
}

pub proof fn lemma_line_end(t: Seq<char>, start: int)
    requires
        0 <= start <= t.len(),
    ensures
        start <= spec_line_end(t, start) <= t.len(),
        spec_line_end(t, start) < t.len() ==> t[spec_line_end(t, start)] == '\n',
        forall|k: int| start <= k < spec_line_end(t, start) ==> t[k] != '\n',
    decreases t.len() - start,
{
    if start < t.len() && t[start] != '\n' {
        lemma_line_end(t, start + 1);
    }
}

/// The line starting at `start`, without its line ending (`"\n"` or `"\r\n"`).
pub open spec fn spec_line(t: Seq<char>, start: int) -> Seq<char> {
    let e = spec_line_end(t, start);
    let raw = t.subrange(start, e);
    if e < t.len() && raw.len() > 0 && raw.last() == '\r' {
        raw.drop_last()
    } else {
        raw
    }
}

/// The first `": "` at or after `from`, or the length when there is none.
pub open spec fn spec_sep(s: Seq<char>, from: int) -> int
    decreases s.len() - from,
{
    if from + 1 >= s.len() {
        s.len() as int
    } else if s[from] == ':' && s[from + 1] == ' ' {
        from
    } else {
        spec_sep(s, from + 1)
    }
}

proof fn lemma_sep(s: Seq<char>, from: int)
    requires
        0 <= from <= s.len(),
    ensures
        from <= spec_sep(s, from) <= s.len(),
        spec_sep(s, from) < s.len() ==> spec_sep(s, from) + 1 < s.len(),
    decreases s.len() - from,
{
    if from + 1 < s.len() && !(s[from] == ':' && s[from + 1] == ' ') {
        lemma_sep(s, from + 1);
    }
}

/// The first `c` at or after `from`, or the length when there is none.
pub open spec fn spec_find_char(s: Seq<char>, c: char, from: int) -> int
    decreases s.len() - from,
{
    if from >= s.len() {
        s.len() as int
    } else if s[from] == c {
        from
    } else {
        spec_find_char(s, c, from + 1)
    }
}

proof fn lemma_find_char(s: Seq<char>, c: char, from: int)
    requires
        0 <= from <= s.len(),
    ensures
        from <= spec_find_char(s, c, from) <= s.len(),
    decreases s.len() - from,
{
    if from < s.len() && s[from] != c {
        lemma_find_char(s, c, from + 1);
    }
}

/// The interface named by a line of `ip link show`: for a line that does not
/// start with a space and holds `": "`, the text between the first `": "` and
/// the next one (or the line's end), cut at its first `'@'`.
pub open spec fn spec_link_name(line: Seq<char>) -> Option<Seq<char>> {
    let i = spec_sep(line, 0);
    if i < line.len() && line[0] != ' ' {
        let part = line.subrange(i + 2, spec_sep(line, i + 2));
        Some(part.take(spec_find_char(part, '@', 0)))
    } else {
        None
    }
}

/// The interface names of the lines from `start` on, in order.
pub open spec fn spec_link_names(t: Seq<char>, start: int) -> Seq<Seq<char>>
    decreases t.len() + 1 - start,
{
    if start < 0 || start >= t.len() {
        seq![]
    } else {
        proof {
            lemma_line_end(t, start);
        }
        let e = spec_line_end(t, start);
        let rest = spec_link_names(t, e + 1);
        match spec_link_name(spec_line(t, start)) {
            Some(n) => seq![n] + rest,
            None => rest,
        }
    }
}

fn find_sep(s: &Vec<char>, from: usize) -> (r: usize)
    requires
        from <= s@.len(),
    ensures
        r == spec_sep(s@, from as int),
    decreases s@.len() - from,
{
    if s.len() - from <= 1 {
        s.len()
    } else if s[from] == ':' && s[from + 1] == ' ' {
        from
    } else {
        find_sep(s, from + 1)
    }
}

fn find_char(s: &Vec<char>, c: char, from: usize) -> (r: usize)
    requires
        from <= s@.len(),
    ensures
        r == spec_find_char(s@, c, from as int),
    decreases s@.len() - from,
{
    if from >= s.len() {
        s.len()
    } else if s[from] == c {
        from
    } else {
        find_char(s, c, from + 1)
    }
}

fn line_end(t: &Vec<char>, start: usize) -> (r: usize)
    requires
        start <= t@.len(),
    ensures
        r == spec_line_end(t@, start as int),
    decreases t@.len() - start,
{
    if start >= t.len() {
        t.len()
    } else if t[start] == '\n' {
        start
    } else {
        line_end(t, start + 1)
    }
}

/// The characters `s[from..to]`.
fn slice_chars(s: &Vec<char>, from: usize, to: usize) -> (r: Vec<char>)
    requires
        from <= to <= s@.len(),
    ensures
        r@ == s@.subrange(from as int, to as int),
{
    let mut out: Vec<char> = Vec::new();
    let mut k: usize = from;
    while k < to
        invariant
            from <= k <= to <= s@.len(),
            out@ == s@.subrange(from as int, k as int),
        decreases to - k,
    {
        out.push(s[k]);
        proof {
            assert(out@ =~= s@.subrange(from as int, k as int + 1));
        }
        k += 1;
    }
    out
}

/// The interface named by one line (see `spec_link_name`).
fn link_name(line: &Vec<char>) -> (r: Option<Vec<char>>)
    ensures
        match spec_link_name(line@) {
            Some(n) => r is Some && r.unwrap()@ == n,
            None => r is None,
        },
{
    let i = find_sep(line, 0);
    proof {
        lemma_sep(line@, 0);
    }
    if i < line.len() && line[0] != ' ' {
        proof {
            lemma_sep(line@, i as int + 2);
        }
        let j = find_sep(line, i + 2);
        let part = slice_chars(line, i + 2, j);
        proof {
            lemma_find_char(part@, '@', 0);
        }
        let at = find_char(&part, '@', 0);
        let name = slice_chars(&part, 0, at);
        proof {
            assert(name@ =~= part@.take(at as int));
        }
        Some(name)
    } else {
        None
    }
}

/// The integration with the operating system's routing commands.
pub struct SystemIntegration;

impl SystemIntegration {
    /// The arguments of the `ip` command that installs a route:
    /// `route add <network> via <next hop> metric <metric>`.
    pub fn add_route_command(network: IpNet, route: &Route) -> (r: Vec<String>)
        ensures
            r@.map_values(|s: String| s@) == seq![
                seq!['r', 'o', 'u', 't', 'e'],
                seq!['a', 'd', 'd'],
                ip_net_text(network),
                seq!['v', 'i', 'a'],
                ip_address_text(route.next_hop),
                seq!['m', 'e', 't', 'r', 'i', 'c'],
                spec_decimal(route.metric as nat),
            ],
    {
        let mut args: Vec<String> = Vec::new();
        let route_word = "route".to_owned();
        let add_word = "add".to_owned();
        let via_word = "via".to_owned();
        let metric_word = "metric".to_owned();
        proof {
            reveal_strlit("route");
            reveal_strlit("add");
            reveal_strlit("via");
            reveal_strlit("metric");
            assert(route_word@ =~= seq!['r', 'o', 'u', 't', 'e']);
            assert(add_word@ =~= seq!['a', 'd', 'd']);
            assert(via_word@ =~= seq!['v', 'i', 'a']);
            assert(metric_word@ =~= seq!['m', 'e', 't', 'r', 'i', 'c']);
        }
        args.push(route_word);
        args.push(add_word);
        args.push(format_ip_net(network));
        args.push(via_word);
        args.push(format_ip_address(route.next_hop));
        args.push(metric_word);
        args.push(decimal_text(route.metric as u64));
        proof {
            assert(args@.map_values(|s: String| s@) =~= seq![
                seq!['r', 'o', 'u', 't', 'e'],
                seq!['a', 'd', 'd'],
                ip_net_text(network),
                seq!['v', 'i', 'a'],
                ip_address_text(route.next_hop),
                seq!['m', 'e', 't', 'r', 'i', 'c'],
                spec_decimal(route.metric as nat),
            ]);
        }
        args
    }

    /// Removing the routes that the protocol added is left to the routes' own
    /// bookkeeping: nothing is done here, and it always succeeds.
    pub fn clear_custom_routes() -> (r: Result<(), SystemError>)
        ensures
            r is Ok,
    {
        Ok(())
    }

    /// The interface names in the output of `ip link show` (see
    /// `spec_link_names`); fails when the output is not UTF-8.
    pub fn get_interface_list(output: &Vec<u8>) -> (r: Result<Vec<String>, SystemError>)
        ensures
            match utf8_decode(output@) {
                Some(t) => r is Ok && r.unwrap()@.map_values(|s: String| s@) == spec_link_names(t, 0),
                None => r == Err::<Vec<String>, SystemError>(SystemError::InvalidUtf8),
            },
    {
        let text = match decode_utf8(output) {
            Some(t) => t,
            None => return Err(SystemError::InvalidUtf8),
        };
        let cs = chars_of(text.as_str());
        let ghost t = cs@;
        let mut names: Vec<String> = Vec::new();
        let mut start: usize = 0;
        while start < cs.len()
            invariant
                t == cs@,
                start <= t.len(),
                names@.map_values(|s: String| s@) + spec_link_names(t, start as int) == spec_link_names(t, 0),
            decreases t.len() - start,
        {
            proof {
                lemma_line_end(t, start as int);
            }
            let e = line_end(&cs, start);
            let mut stop = e;
            if e < cs.len() && e > start && cs[e - 1] == '\r' {
                stop = e - 1;
            }
            let line = slice_chars(&cs, start, stop);
            proof {
                assert(line@ =~= spec_line(t, start as int));
            }
            let ghost before = names@.map_values(|s: String| s@);
            match link_name(&line) {
                Some(n) => {
                    names.push(string_from_chars(&n));
                    proof {
                        assert(names@.map_values(|s: String| s@) =~= before.push(n@));
                    }
                },
                None => {},
            }
            let next = if e >= cs.len() {
                cs.len()
            } else {
                e + 1
            };
            proof {
                let rest = spec_link_names(t, e as int + 1);
                assert(spec_link_names(t, next as int) == rest);
                match spec_link_name(spec_line(t, start as int)) {
                    Some(n) => {
                        assert(spec_link_names(t, start as int) == seq![n] + rest);
                        assert(names@.map_values(|s: String| s@) + rest =~= before + (seq![n] + rest));
                    },
                    None => {},
                }
            }
            start = next;
        }
        proof {
            assert(spec_link_names(t, start as int) =~= Seq::<Seq<char>>::empty());
            assert(names@.map_values(|s: String| s@) + Seq::<Seq<char>>::empty() =~= names@.map_values(|s: String| s@));
        }
        Ok(names)
    }
}

} // verus!
