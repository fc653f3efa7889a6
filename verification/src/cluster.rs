use vstd::prelude::*;

verus! {

/// The character of the decimal digit `d`.
pub open spec fn digit_char(d: int) -> char {
    (48 + d) as char
}

/// The decimal digits of `n`, most significant first.
pub open spec fn digits(n: nat) -> Seq<char>
    decreases n,
{
    if n < 10 {
        seq![digit_char(n as int)]
    } else {
        digits(n / 10).push(digit_char((n % 10) as int))
    }
}

/// `n` written in decimal, with a leading `-` when it is negative.
pub open spec fn decimal(n: int) -> Seq<char> {
    if n < 0 {
        seq!['-'] + digits((-n) as nat)
    } else {
        digits(n as nat)
    }
}

/// `prefix` followed by `id` in decimal, as `format!("{}{}", prefix, id)`
/// writes it (std's `Display` for `i32` writes the decimal digits, led by
/// `-` for a negative number).
#[verifier::external_body]
fn format_id(prefix: &str, id: i32) -> (s: String)
    ensures
        s@ == prefix@ + decimal(id as int),
{
    format!("{}{}", prefix, id)
}

/// The name of server `id`.
pub fn s_id(id: i32) -> (s: String)
    ensures
        s@ == "server"@ + decimal(id as int),
{
    format_id("server", id)
}

/// The name of client `id`.
pub fn c_id(id: i32) -> (s: String)
    ensures
        s@ == "client"@ + decimal(id as int),
{
    format_id("client", id)
}

/// The names `prefix0`, `prefix1`, ... up to `n - 1`, leaving out number
/// `skip`.
pub open spec fn numbered(prefix: Seq<char>, n: int, skip: int) -> Seq<Seq<char>>
    decreases n,
{
    if n <= 0 {
        Seq::empty()
    } else {
        let rest = numbered(prefix, n - 1, skip);
        if n - 1 != skip {
            rest.push(prefix + decimal(n - 1))
        } else {
            rest
        }
    }
}

/// Appends the names `prefix0` to `prefix(n-1)`, leaving out `skip`.
fn push_numbered(out: &mut Vec<String>, server: bool, n: i32, skip: i32)
    ensures
        final(out)@.map_values(|s: String| s@) == old(out)@.map_values(|s: String| s@)
            + numbered(if server { "server"@ } else { "client"@ }, n as int, skip as int),
{
    let ghost prefix = if server { "server"@ } else { "client"@ };
    let ghost start = old(out)@.map_values(|s: String| s@);
    let mut i: i32 = 0;
    assert(start + numbered(prefix, 0, skip as int) =~= start);
    while i < n
        invariant
            0 <= i,
            n >= 0 ==> i <= n,
            n < 0 ==> i == 0,
            prefix == if server { "server"@ } else { "client"@ },
            start == old(out)@.map_values(|s: String| s@),
            out@.map_values(|s: String| s@) == start + numbered(prefix, i as int, skip as int),
        decreases n - i,
    {
        if i != skip {
            let name = if server { s_id(i) } else { c_id(i) };
            let ghost before = out@.map_values(|s: String| s@);
            out.push(name);
            assert(out@.map_values(|s: String| s@) =~= before.push(name@));
        }
        i = i + 1;
    }
    if n < 0 {
        assert(numbered(prefix, n as int, skip as int) =~= Seq::<Seq<char>>::empty());
    }
}

/// The names of the `n` servers of a local cluster, in order.
pub fn server_names(n: i32) -> (names: Vec<String>)
    ensures
        names@.map_values(|s: String| s@) == numbered("server"@, n as int, -1),
{
    let mut names: Vec<String> = Vec::new();
    push_numbered(&mut names, true, n, -1);
    assert(names@.map_values(|s: String| s@) =~= numbered("server"@, n as int, -1));
    names
}

/// The nodes server `i` of a local cluster of `n_servers` servers and
/// `n_clients` clients can send to: every other server, then every client.
pub fn server_links(i: i32, n_servers: i32, n_clients: i32) -> (names: Vec<String>)
    ensures
        names@.map_values(|s: String| s@) == numbered("server"@, n_servers as int, i as int)
            + numbered("client"@, n_clients as int, -1),
{
    let mut names: Vec<String> = Vec::new();
    push_numbered(&mut names, true, n_servers, i);
    push_numbered(&mut names, false, n_clients, -1);
    assert(Seq::<Seq<char>>::empty() + numbered("server"@, n_servers as int, i as int)
        =~= numbered("server"@, n_servers as int, i as int));
    names
}

/// The nodes a client of a local cluster of `n_servers` servers can send
/// to: every server.
pub fn client_links(n_servers: i32) -> (names: Vec<String>)
    ensures
        names@.map_values(|s: String| s@) == numbered("server"@, n_servers as int, -1),
{
    server_names(n_servers)
}


proof fn lemma_digit_char(d: int)
    requires
        0 <= d < 10,
    ensures
        digit_char(d) as int == 48 + d,
{
}

proof fn lemma_digits_shape(n: nat)
    ensures
        digits(n).len() >= 1,
        n >= 10 ==> digits(n).len() >= 2,
        48 <= digits(n)[0] as int <= 57,
        forall|i: int| 0 <= i < digits(n).len() ==> 48 <= #[trigger] digits(n)[i] as int <= 57,
    decreases n,
{
    if n < 10 {
        lemma_digit_char(n as int);
    } else {
        lemma_digits_shape(n / 10);
        lemma_digit_char((n % 10) as int);
        let d = digits(n / 10);
        assert forall|i: int| 0 <= i < digits(n).len() implies 48 <= #[trigger] digits(n)[i] as int <= 57 by {
            if i < d.len() {
                assert(digits(n)[i] == d[i]);
            }
        }
    }
}

/// Different numbers have different decimal digits.
proof fn lemma_digits_injective(n: nat, m: nat)
    requires
        digits(n) == digits(m),
    ensures
        n == m,
    decreases n,
{
    lemma_digits_shape(n);
    lemma_digits_shape(m);
    if n < 10 && m < 10 {
        lemma_digit_char(n as int);
        lemma_digit_char(m as int);
    } else if n >= 10 && m >= 10 {
        let a = digits(n);
        let b = digits(m);
        assert(a.last() == b.last());
        lemma_digit_char((n % 10) as int);
        lemma_digit_char((m % 10) as int);
        assert(a.drop_last() =~= digits(n / 10));
        assert(b.drop_last() =~= digits(m / 10));
        lemma_digits_injective(n / 10, m / 10);
    }
}

/// Different numbers are written differently.
pub proof fn lemma_decimal_injective(n: int, m: int)
    requires
        decimal(n) == decimal(m),
    ensures
        n == m,
{
    if n < 0 {
        lemma_digits_shape((-n) as nat);
    }
    if m < 0 {
        lemma_digits_shape((-m) as nat);
    }
    if n >= 0 {
        lemma_digits_shape(n as nat);
    }
    if m >= 0 {
        lemma_digits_shape(m as nat);
    }
    if n < 0 && m < 0 {
        assert(decimal(n).drop_first() =~= digits((-n) as nat));
        assert(decimal(m).drop_first() =~= digits((-m) as nat));
        lemma_digits_injective((-n) as nat, (-m) as nat);
    } else if n >= 0 && m >= 0 {
        lemma_digits_injective(n as nat, m as nat);
    } else if n < 0 {
        assert(decimal(n)[0] == '-');
        assert(decimal(m)[0] == digits(m as nat)[0]);
    } else {
        assert(decimal(m)[0] == '-');
        assert(decimal(n)[0] == digits(n as nat)[0]);
    }
}

/// Names are unique in a local cluster: different servers, and different
/// clients, get different names, and no server shares a name with a client.
pub proof fn law_names_unique(i: int, j: int)
    ensures
        i != j ==> "server"@ + decimal(i) != "server"@ + decimal(j),
        i != j ==> "client"@ + decimal(i) != "client"@ + decimal(j),
        "server"@ + decimal(i) != "client"@ + decimal(j),
{
    reveal_strlit("server");
    reveal_strlit("client");
    if i != j {
        if "server"@ + decimal(i) == "server"@ + decimal(j) {
            assert(("server"@ + decimal(i)).skip(6) =~= decimal(i));
            assert(("server"@ + decimal(j)).skip(6) =~= decimal(j));
            lemma_decimal_injective(i, j);
        }
        if "client"@ + decimal(i) == "client"@ + decimal(j) {
            assert(("client"@ + decimal(i)).skip(6) =~= decimal(i));
            assert(("client"@ + decimal(j)).skip(6) =~= decimal(j));
            lemma_decimal_injective(i, j);
        }
    }
    assert(("server"@ + decimal(i))[0] == 's');
    assert(("client"@ + decimal(j))[0] == 'c');
}

/// `s` without its newline characters.
pub open spec fn without_newlines(s: Seq<char>) -> Seq<char>
    decreases s.len(),
{
    if s.len() == 0 {
        s
    } else {
        let rest = without_newlines(s.drop_last());
        if s.last() == '\n' { rest } else { rest.push(s.last()) }
    }
}

/// Whether `line` of a hosts file is a comment: it starts with `#`.
pub open spec fn is_comment(line: Seq<char>) -> bool {
    line.len() > 0 && line[0] == '#'
}

/// The host addresses a hosts file lists: every line that is not a comment,
/// without its newlines, in order.
pub open spec fn hosts_of(lines: Seq<Seq<char>>) -> Seq<Seq<char>>
    decreases lines.len(),
{
    if lines.len() == 0 {
        Seq::empty()
    } else {
        let rest = hosts_of(lines.drop_last());
        if is_comment(lines.last()) { rest } else { rest.push(without_newlines(lines.last())) }
    }
}

/// `line` without its newline characters.
fn strip_newlines(line: &String) -> (r: String)
    ensures
        r@ == without_newlines(line@),
{
    let s = line.as_str();
    let n: usize = s.unicode_len();
    let mut r = String::new();
    let mut i: usize = 0;
    assert(line@.take(0) =~= Seq::<char>::empty());
    while i < n
        invariant
            i <= n,
            n == line@.len(),
            s@ == line@,
            r@ == without_newlines(line@.take(i as int)),
        decreases n - i,
    {
        let c = s.get_char(i);
        assert(line@.take(i + 1).drop_last() =~= line@.take(i as int));
        assert(line@.take(i + 1).last() == c);
        if c != '\n' {
            let piece = s.substring_char(i, i + 1);
            assert(piece@ =~= seq![c]);
            r.append(piece);
            assert(r@ =~= without_newlines(line@.take(i as int)).push(c));
        }
        i = i + 1;
    }
    assert(line@.take(n as int) =~= line@);
    r
}

/// The host addresses listed by the lines of a hosts file: lines that start
/// with `#` are comments and are skipped, and the newlines of the others are
/// dropped.
pub fn host_list(lines: Vec<String>) -> (hosts: Vec<String>)
    ensures
        hosts@.map_values(|s: String| s@) == hosts_of(lines@.map_values(|s: String| s@)),
{
    let ghost view = lines@.map_values(|s: String| s@);
    let mut hosts: Vec<String> = Vec::new();
    let mut i: usize = 0;
    assert(view.take(0) =~= Seq::<Seq<char>>::empty());
    assert(hosts@.map_values(|s: String| s@) =~= Seq::<Seq<char>>::empty());
    while i < lines.len()
        invariant
            i <= lines@.len(),
            view == lines@.map_values(|s: String| s@),
            hosts@.map_values(|s: String| s@) == hosts_of(view.take(i as int)),
        decreases lines@.len() - i,
    {
        let line = &lines[i];
        assert(view.take(i + 1).drop_last() =~= view.take(i as int));
        assert(view.take(i + 1).last() == line@);
        let s = line.as_str();
        let comment = s.unicode_len() > 0 && s.get_char(0) == '#';
        if !comment {
            let host = strip_newlines(line);
            let ghost before = hosts@.map_values(|s: String| s@);
            hosts.push(host);
            assert(hosts@.map_values(|s: String| s@) =~= before.push(host@));
        }
        i = i + 1;
    }
    assert(view.take(view.len() as int) =~= view);
    hosts
}
} // verus!
