//! Human-readable hints: what a well-known port is conventionally used for,
//! and what a well-known executable actually is.

use vstd::prelude::*;

use crate::text::{
    ascii_lower, ascii_lower_char, lemma_ascii_lower_char, lemma_trim_of_trimmed, lemma_trim_shape, str_eq,
    to_ascii_lowercase, trim, trim_str,
};

verus! {

/// Well-known ports with a short description, strictly ascending by port.
///
/// Biased towards what a developer meets on localhost rather than the full
/// IANA registry: the point is to make a port list scannable at a glance.
pub open spec fn service_table() -> Seq<(u16, &'static str)> {
    seq![
        (21, "FTP"),
        (22, "SSH"),
        (23, "Telnet"),
        (25, "SMTP"),
        (53, "DNS"),
        (80, "HTTP"),
        (110, "POP3"),
        (143, "IMAP"),
        (389, "LDAP"),
        (443, "HTTPS"),
        (445, "SMB"),
        (587, "SMTP (submission)"),
        (631, "IPP / CUPS"),
        (993, "IMAPS"),
        (995, "POP3S"),
        (1080, "SOCKS proxy"),
        (1433, "SQL Server"),
        (1521, "Oracle DB"),
        (1883, "MQTT"),
        (2049, "NFS"),
        (2375, "Docker (plain)"),
        (2376, "Docker (TLS)"),
        (3000, "Dev server (Node/Rails/Grafana)"),
        (3001, "Dev server"),
        (3306, "MySQL / MariaDB"),
        (3389, "RDP"),
        (4000, "Dev server (Phoenix/Jekyll)"),
        (4200, "Angular dev server"),
        (4318, "OpenTelemetry (HTTP)"),
        (4369, "Erlang port mapper"),
        (5000, "Dev server (Flask/ASP.NET)"),
        (5001, "Dev server"),
        (5173, "Vite dev server"),
        (5432, "PostgreSQL"),
        (5672, "RabbitMQ"),
        (5900, "VNC"),
        (6006, "Storybook / TensorBoard"),
        (6379, "Redis"),
        (7000, "Dev server / AirPlay"),
        (7687, "Neo4j (Bolt)"),
        (8000, "Dev server (Django/FastAPI)"),
        (8080, "HTTP alternate (Tomcat/proxy)"),
        (8081, "HTTP alternate"),
        (8086, "InfluxDB"),
        (8088, "HTTP alternate"),
        (8443, "HTTPS alternate"),
        (8888, "Jupyter / HTTP alternate"),
        (9000, "Dev server (PHP-FPM/MinIO/SonarQube)"),
        (9090, "Prometheus"),
        (9092, "Kafka"),
        (9200, "Elasticsearch"),
        (9229, "Node.js debugger"),
        (9300, "Elasticsearch (transport)"),
        (11211, "Memcached"),
        (15672, "RabbitMQ (management)"),
        (16686, "Jaeger UI"),
        (27017, "MongoDB"),
        (50051, "gRPC"),
    ]
}

/// The well-known port table (see [`service_table`]).
pub fn services() -> (r: Vec<(u16, &'static str)>)
    ensures
        r@ == service_table(),
{
    let r = vec![
        (21, "FTP"),
        (22, "SSH"),
        (23, "Telnet"),
        (25, "SMTP"),
        (53, "DNS"),
        (80, "HTTP"),
        (110, "POP3"),
        (143, "IMAP"),
        (389, "LDAP"),
        (443, "HTTPS"),
        (445, "SMB"),
        (587, "SMTP (submission)"),
        (631, "IPP / CUPS"),
        (993, "IMAPS"),
        (995, "POP3S"),
        (1080, "SOCKS proxy"),
        (1433, "SQL Server"),
        (1521, "Oracle DB"),
        (1883, "MQTT"),
        (2049, "NFS"),
        (2375, "Docker (plain)"),
        (2376, "Docker (TLS)"),
        (3000, "Dev server (Node/Rails/Grafana)"),
        (3001, "Dev server"),
        (3306, "MySQL / MariaDB"),
        (3389, "RDP"),
        (4000, "Dev server (Phoenix/Jekyll)"),
        (4200, "Angular dev server"),
        (4318, "OpenTelemetry (HTTP)"),
        (4369, "Erlang port mapper"),
        (5000, "Dev server (Flask/ASP.NET)"),
        (5001, "Dev server"),
        (5173, "Vite dev server"),
        (5432, "PostgreSQL"),
        (5672, "RabbitMQ"),
        (5900, "VNC"),
        (6006, "Storybook / TensorBoard"),
        (6379, "Redis"),
        (7000, "Dev server / AirPlay"),
        (7687, "Neo4j (Bolt)"),
        (8000, "Dev server (Django/FastAPI)"),
        (8080, "HTTP alternate (Tomcat/proxy)"),
        (8081, "HTTP alternate"),
        (8086, "InfluxDB"),
        (8088, "HTTP alternate"),
        (8443, "HTTPS alternate"),
        (8888, "Jupyter / HTTP alternate"),
        (9000, "Dev server (PHP-FPM/MinIO/SonarQube)"),
        (9090, "Prometheus"),
        (9092, "Kafka"),
        (9200, "Elasticsearch"),
        (9229, "Node.js debugger"),
        (9300, "Elasticsearch (transport)"),
        (11211, "Memcached"),
        (15672, "RabbitMQ (management)"),
        (16686, "Jaeger UI"),
        (27017, "MongoDB"),
        (50051, "gRPC"),
    ];
    assert(r@ =~= service_table());
    r
}

/// The description of the first entry of `table` for `port`, if any.
pub open spec fn lookup_port(table: Seq<(u16, &'static str)>, port: u16) -> Option<&'static str>
    decreases table.len(),
{
    if table.len() == 0 {
        None
    } else if table[0].0 == port {
        Some(table[0].1)
    } else {
        lookup_port(table.drop_first(), port)
    }
}

/// Returns a short description for a well-known port, if there is one.
///
/// This is a convention, not detection: it reports what a port is normally
/// used for, and says "Redis" for anything sitting on 6379. Where the owning
/// process is known, [`describe_process`] is the more trustworthy answer.
pub fn service_for_port(port: u16) -> (r: Option<&'static str>)
    ensures
        r == lookup_port(service_table(), port),
        // A description only for a port the table holds exactly, and then
        // that port's own description.
        forall|i: int|
            0 <= i < service_table().len() && (#[trigger] service_table()[i]).0 == port ==> r == Some(
                service_table()[i].1,
            ),
        (forall|i: int| 0 <= i < service_table().len() ==> (#[trigger] service_table()[i]).0 != port)
            ==> r is None,
{
    proof {
        law_service_lookup_is_exact(port);
    }
    let table = services();
    assert(table@.subrange(0, table@.len() as int) =~= table@);
    let mut i: usize = 0;
    while i < table.len()
        invariant
            table@ == service_table(),
            i <= table@.len(),
            lookup_port(service_table(), port) == lookup_port(table@.subrange(i as int, table@.len() as int), port),
        decreases table.len() - i,
    {
        let ghost rest = table@.subrange(i as int, table@.len() as int);
        assert(rest.drop_first() =~= table@.subrange(i + 1, table@.len() as int));
        assert(rest[0] == table@[i as int]);
        if table[i].0 == port {
            return Some(table[i].1);
        }
        i = i + 1;
    }
    None
}

/// Well-known executables, by lower-case file name, with what they are.
///
/// System processes that turn a listing into a wall of identical names, the
/// plumbing that fronts other programs' ports, and common runtimes.
pub open spec fn process_table() -> Seq<(&'static str, &'static str)> {
    seq![
        ("system", "Windows kernel"),
        ("svchost.exe", "Windows service host"),
        ("lsass.exe", "Windows security (LSA)"),
        ("services.exe", "Windows service manager"),
        ("wininit.exe", "Windows startup"),
        ("spoolsv.exe", "Print spooler"),
        ("dashost.exe", "Device association"),
        ("wudfhost.exe", "User-mode driver host"),
        ("searchindexer.exe", "Windows Search"),
        ("msedgewebview2.exe", "Edge WebView2"),
        ("crossdeviceservice.exe", "Windows Phone Link"),
        ("shellexperiencehost.exe", "Windows shell UI"),
        ("wslrelay.exe", "WSL port forward"),
        ("wslhost.exe", "WSL host"),
        ("wslservice.exe", "WSL service"),
        ("vpnkit.exe", "Docker network proxy"),
        ("com.docker.backend.exe", "Docker Desktop"),
        ("com.docker.backend", "Docker Desktop"),
        ("docker-proxy", "Docker port mapping"),
        ("dockerd", "Docker daemon"),
        ("containerd", "containerd"),
        ("node.exe", "Node.js"),
        ("node", "Node.js"),
        ("deno", "Deno"),
        ("bun", "Bun"),
        ("python.exe", "Python"),
        ("python3", "Python"),
        ("java.exe", "Java"),
        ("java", "Java"),
        ("ruby", "Ruby"),
        ("dotnet.exe", ".NET"),
        ("dotnet", ".NET"),
        ("postgres", "PostgreSQL"),
        ("mysqld", "MySQL"),
        ("redis-server", "Redis"),
        ("mongod", "MongoDB"),
        ("nginx", "nginx"),
    ]
}

/// The executable table (see [`process_table`]).
pub fn processes() -> (r: Vec<(&'static str, &'static str)>)
    ensures
        r@ == process_table(),
{
    let r = vec![
        ("system", "Windows kernel"),
        ("svchost.exe", "Windows service host"),
        ("lsass.exe", "Windows security (LSA)"),
        ("services.exe", "Windows service manager"),
        ("wininit.exe", "Windows startup"),
        ("spoolsv.exe", "Print spooler"),
        ("dashost.exe", "Device association"),
        ("wudfhost.exe", "User-mode driver host"),
        ("searchindexer.exe", "Windows Search"),
        ("msedgewebview2.exe", "Edge WebView2"),
        ("crossdeviceservice.exe", "Windows Phone Link"),
        ("shellexperiencehost.exe", "Windows shell UI"),
        ("wslrelay.exe", "WSL port forward"),
        ("wslhost.exe", "WSL host"),
        ("wslservice.exe", "WSL service"),
        ("vpnkit.exe", "Docker network proxy"),
        ("com.docker.backend.exe", "Docker Desktop"),
        ("com.docker.backend", "Docker Desktop"),
        ("docker-proxy", "Docker port mapping"),
        ("dockerd", "Docker daemon"),
        ("containerd", "containerd"),
        ("node.exe", "Node.js"),
        ("node", "Node.js"),
        ("deno", "Deno"),
        ("bun", "Bun"),
        ("python.exe", "Python"),
        ("python3", "Python"),
        ("java.exe", "Java"),
        ("java", "Java"),
        ("ruby", "Ruby"),
        ("dotnet.exe", ".NET"),
        ("dotnet", ".NET"),
        ("postgres", "PostgreSQL"),
        ("mysqld", "MySQL"),
        ("redis-server", "Redis"),
        ("mongod", "MongoDB"),
        ("nginx", "nginx"),
    ];
    assert(r@ =~= process_table());
    r
}

/// The description of the first entry of `table` whose name is `name`.
pub open spec fn lookup_name(table: Seq<(&'static str, &'static str)>, name: Seq<char>) -> Option<&'static str>
    decreases table.len(),
{
    if table.len() == 0 {
        None
    } else if table[0].0@ == name {
        Some(table[0].1)
    } else {
        lookup_name(table.drop_first(), name)
    }
}

/// What [`describe_process`] answers: the executable name is trimmed and
/// lower-cased (ASCII), and an empty result describes nothing.
pub open spec fn process_description(executable_name: Seq<char>) -> Option<&'static str> {
    let needle = ascii_lower(trim(executable_name));
    if needle.len() == 0 {
        None
    } else {
        lookup_name(process_table(), needle)
    }
}

/// What a process is, matched on its executable name (case-insensitive).
///
/// Unlike [`service_for_port`] this is a fact about the running process
/// rather than a guess from a number.
pub fn describe_process(executable_name: &str) -> (r: Option<&'static str>)
    ensures
        r == process_description(executable_name@),
        // Only a table entry whose name equals the trimmed, lower-cased name
        // describes it; a name equal to no entry describes nothing.
        r matches Some(d) ==> exists|i: int|
            0 <= i < process_table().len() && (#[trigger] process_table()[i]).0@ == ascii_lower(
                trim(executable_name@),
            ) && process_table()[i].1 == d,
        (forall|i: int|
            0 <= i < process_table().len() ==> (#[trigger] process_table()[i]).0@ != ascii_lower(
                trim(executable_name@),
            )) ==> r is None,
        ascii_lower(trim(executable_name@)).len() > 0 && (exists|i: int|
            0 <= i < process_table().len() && (#[trigger] process_table()[i]).0@ == ascii_lower(
                trim(executable_name@),
            )) ==> r is Some,
{
    proof {
        law_process_lookup_is_exact(executable_name@);
    }
    let trimmed = trim_str(executable_name);
    let needle = to_ascii_lowercase(trimmed.as_str());
    if needle.as_str().unicode_len() == 0 {
        return None;
    }
    let table = processes();
    assert(table@.subrange(0, table@.len() as int) =~= table@);
    let mut i: usize = 0;
    while i < table.len()
        invariant
            table@ == process_table(),
            i <= table@.len(),
            needle@ == ascii_lower(trim(executable_name@)),
            needle@.len() != 0,
            lookup_name(process_table(), needle@) == lookup_name(table@.subrange(i as int, table@.len() as int), needle@),
        decreases table.len() - i,
    {
        let ghost rest = table@.subrange(i as int, table@.len() as int);
        assert(rest.drop_first() =~= table@.subrange(i + 1, table@.len() as int));
        assert(rest[0] == table@[i as int]);
        if str_eq(table[i].0, needle.as_str()) {
            assert(rest[0].0@ == needle@);
            assert(lookup_name(rest, needle@) == Some(rest[0].1));
            assert(needle@.len() != 0);
            return Some(table[i].1);
        }
        i = i + 1;
    }
    None
}

/// Ports below 1024 need elevation to bind on Unix.
pub fn is_privileged_port(port: u16) -> (r: bool)
    ensures
        r == (port < 1024),
{
    port < 1024
}

proof fn lemma_ascending_from_adjacent(t: Seq<(u16, &'static str)>)
    requires
        forall|i: int| 0 <= i < t.len() - 1 ==> (#[trigger] t[i]).0 < t[i + 1].0,
    ensures
        forall|i: int, j: int| 0 <= i < j < t.len() ==> (#[trigger] t[i]).0 < (#[trigger] t[j]).0,
    decreases t.len(),
{
    if t.len() > 0 {
        let d = t.drop_last();
        assert forall|i: int| 0 <= i < d.len() - 1 implies (#[trigger] d[i]).0 < d[i + 1].0 by {
            assert(d[i] == t[i] && d[i + 1] == t[i + 1]);
        }
        lemma_ascending_from_adjacent(d);
        assert forall|i: int, j: int| 0 <= i < j < t.len() implies (#[trigger] t[i]).0 < (#[trigger] t[j]).0 by {
            if j < t.len() - 1 {
                assert(d[i] == t[i] && d[j] == t[j]);
            } else if i < j - 1 {
                assert(d[i] == t[i] && d[j - 1] == t[j - 1]);
                assert(t[j - 1].0 < t[j].0);
            }
        }
    }
}

/// The port table is strictly ascending by port, so every port has at most
/// one description and a search by port may stop at the first larger one.
#[verifier::rlimit(50)]
pub proof fn law_service_table_is_strictly_ascending()
    ensures
        forall|i: int, j: int|
            0 <= i < j < service_table().len() ==> (#[trigger] service_table()[i]).0
                < (#[trigger] service_table()[j]).0,
{
    let t = service_table();
    assert(t.len() == 58);
    assert(t[0].0 == 21);
    assert(t[1].0 == 22);
    assert(t[2].0 == 23);
    assert(t[3].0 == 25);
    assert(t[4].0 == 53);
    assert(t[5].0 == 80);
    assert(t[6].0 == 110);
    assert(t[7].0 == 143);
    assert(t[8].0 == 389);
    assert(t[9].0 == 443);
    assert(t[10].0 == 445);
    assert(t[11].0 == 587);
    assert(t[12].0 == 631);
    assert(t[13].0 == 993);
    assert(t[14].0 == 995);
    assert(t[15].0 == 1080);
    assert(t[16].0 == 1433);
    assert(t[17].0 == 1521);
    assert(t[18].0 == 1883);
    assert(t[19].0 == 2049);
    assert(t[20].0 == 2375);
    assert(t[21].0 == 2376);
    assert(t[22].0 == 3000);
    assert(t[23].0 == 3001);
    assert(t[24].0 == 3306);
    assert(t[25].0 == 3389);
    assert(t[26].0 == 4000);
    assert(t[27].0 == 4200);
    assert(t[28].0 == 4318);
    assert(t[29].0 == 4369);
    assert(t[30].0 == 5000);
    assert(t[31].0 == 5001);
    assert(t[32].0 == 5173);
    assert(t[33].0 == 5432);
    assert(t[34].0 == 5672);
    assert(t[35].0 == 5900);
    assert(t[36].0 == 6006);
    assert(t[37].0 == 6379);
    assert(t[38].0 == 7000);
    assert(t[39].0 == 7687);
    assert(t[40].0 == 8000);
    assert(t[41].0 == 8080);
    assert(t[42].0 == 8081);
    assert(t[43].0 == 8086);
    assert(t[44].0 == 8088);
    assert(t[45].0 == 8443);
    assert(t[46].0 == 8888);
    assert(t[47].0 == 9000);
    assert(t[48].0 == 9090);
    assert(t[49].0 == 9092);
    assert(t[50].0 == 9200);
    assert(t[51].0 == 9229);
    assert(t[52].0 == 9300);
    assert(t[53].0 == 11211);
    assert(t[54].0 == 15672);
    assert(t[55].0 == 16686);
    assert(t[56].0 == 27017);
    assert(t[57].0 == 50051);
    lemma_ascending_from_adjacent(t);
}

/// Describing a name that is already trimmed and lower-cased gives the same
/// answer as describing the name itself: normalising twice is normalising
/// once.
pub proof fn law_describing_a_normalised_name_changes_nothing(executable_name: Seq<char>)
    ensures
        process_description(ascii_lower(trim(executable_name))) == process_description(executable_name),
{
    let t = trim(executable_name);
    let u = ascii_lower(t);
    lemma_trim_shape(executable_name);
    if u.len() > 0 {
        lemma_ascii_lower_char(t[0]);
        lemma_ascii_lower_char(t.last());
        assert(u[0] == ascii_lower_char(t[0]));
        assert(u.last() == ascii_lower_char(t[t.len() - 1]));
    }
    lemma_trim_of_trimmed(u);
    assert forall|i: int| 0 <= i < u.len() implies ascii_lower(u)[i] == u[i] by {
        lemma_ascii_lower_char(t[i]);
    }
    assert(ascii_lower(u) =~= u);
}

proof fn lemma_lookup_port_exact(t: Seq<(u16, &'static str)>, port: u16)
    ensures
        lookup_port(t, port) matches Some(d) ==> exists|i: int| 0 <= i < t.len() && #[trigger] t[i] == (port, d),
        (exists|i: int| 0 <= i < t.len() && (#[trigger] t[i]).0 == port) ==> lookup_port(t, port) is Some,
    decreases t.len(),
{
    if t.len() > 0 {
        let r = t.drop_first();
        lemma_lookup_port_exact(r, port);
        if let Some(d) = lookup_port(r, port) {
            if t[0].0 != port {
                let i = choose|i: int| 0 <= i < r.len() && #[trigger] r[i] == (port, d);
                assert(t[i + 1] == r[i]);
            }
        }
        if t[0].0 != port && exists|i: int| 0 <= i < t.len() && (#[trigger] t[i]).0 == port {
            let i = choose|i: int| 0 <= i < t.len() && (#[trigger] t[i]).0 == port;
            assert(r[i - 1] == t[i]);
        }
    }
}

/// A port has a description exactly when the table holds an entry for that
/// very port, and the description is that entry's; a port the table does
/// not hold has none.
pub proof fn law_service_lookup_is_exact(port: u16)
    ensures
        forall|d: &'static str|
            lookup_port(service_table(), port) == Some(d) <==> exists|i: int|
                0 <= i < service_table().len() && #[trigger] service_table()[i] == (port, d),
        forall|i: int|
            0 <= i < service_table().len() && (#[trigger] service_table()[i]).0 == port ==> lookup_port(
                service_table(),
                port,
            ) == Some(service_table()[i].1),
        (forall|i: int| 0 <= i < service_table().len() ==> (#[trigger] service_table()[i]).0 != port)
            ==> lookup_port(service_table(), port) is None,
{
    let t = service_table();
    lemma_lookup_port_exact(t, port);
    law_service_table_is_strictly_ascending();
    assert forall|i: int| 0 <= i < t.len() && (#[trigger] t[i]).0 == port implies lookup_port(t, port) == Some(t[i].1) by {
        let d = lookup_port(t, port).unwrap();
        let j = choose|j: int| 0 <= j < t.len() && #[trigger] t[j] == (port, d);
        if i < j {
            assert(t[i].0 < t[j].0);
        } else if j < i {
            assert(t[j].0 < t[i].0);
        }
    }
    assert forall|d: &'static str| lookup_port(t, port) == Some(d) <==> exists|i: int|
        0 <= i < t.len() && #[trigger] t[i] == (port, d) by {
        if exists|i: int| 0 <= i < t.len() && #[trigger] t[i] == (port, d) {
            let i = choose|i: int| 0 <= i < t.len() && #[trigger] t[i] == (port, d);
            assert(t[i].0 == port);
        }
    }
    if forall|i: int| 0 <= i < t.len() ==> (#[trigger] t[i]).0 != port {
        if let Some(d) = lookup_port(t, port) {
            let j = choose|j: int| 0 <= j < t.len() && #[trigger] t[j] == (port, d);
            assert(t[j].0 != port);
        }
    }
}

proof fn lemma_lookup_name_exact(t: Seq<(&'static str, &'static str)>, name: Seq<char>)
    ensures
        lookup_name(t, name) matches Some(d) ==> exists|i: int|
            0 <= i < t.len() && (#[trigger] t[i]).0@ == name && t[i].1 == d,
        (exists|i: int| 0 <= i < t.len() && (#[trigger] t[i]).0@ == name) ==> lookup_name(t, name) is Some,
    decreases t.len(),
{
    if t.len() > 0 {
        let r = t.drop_first();
        lemma_lookup_name_exact(r, name);
        if let Some(d) = lookup_name(r, name) {
            if t[0].0@ != name {
                let i = choose|i: int| 0 <= i < r.len() && (#[trigger] r[i]).0@ == name && r[i].1 == d;
                assert(t[i + 1] == r[i]);
            }
        }
        if t[0].0@ != name && exists|i: int| 0 <= i < t.len() && (#[trigger] t[i]).0@ == name {
            let i = choose|i: int| 0 <= i < t.len() && (#[trigger] t[i]).0@ == name;
            assert(r[i - 1] == t[i]);
        }
    }
}

/// An executable is described only by a table entry whose name equals its
/// trimmed, lower-cased name, with that entry's description; a name that
/// equals no entry's (or is blank) is described by nothing, and a name that
/// does equal an entry's is always described.
pub proof fn law_process_lookup_is_exact(executable_name: Seq<char>)
    ensures
        process_description(executable_name) matches Some(d) ==> exists|i: int|
            0 <= i < process_table().len() && (#[trigger] process_table()[i]).0@ == ascii_lower(
                trim(executable_name),
            ) && process_table()[i].1 == d,
        (forall|i: int|
            0 <= i < process_table().len() ==> (#[trigger] process_table()[i]).0@ != ascii_lower(
                trim(executable_name),
            )) ==> process_description(executable_name) is None,
        ascii_lower(trim(executable_name)).len() == 0 ==> process_description(executable_name) is None,
        ascii_lower(trim(executable_name)).len() > 0 && (exists|i: int|
            0 <= i < process_table().len() && (#[trigger] process_table()[i]).0@ == ascii_lower(
                trim(executable_name),
            )) ==> process_description(executable_name) is Some,
{
    let needle = ascii_lower(trim(executable_name));
    let t = process_table();
    lemma_lookup_name_exact(t, needle);
    if forall|i: int| 0 <= i < t.len() ==> (#[trigger] t[i]).0@ != needle {
        if let Some(d) = lookup_name(t, needle) {
            let i = choose|i: int| 0 <= i < t.len() && (#[trigger] t[i]).0@ == needle && t[i].1 == d;
            assert(t[i].0@ != needle);
        }
    }
}

} // verus!
