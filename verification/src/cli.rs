//! The command line: what is asked of the daemon and how its answers are shown.
use vstd::prelude::*;
use vstd::slice::slice_subrange;
use vstd::string::*;

use crate::control::fingerprint_of_payload;
use crate::control::IpcMessage;
use crate::json::{json_field, json_items, JsonField};
use crate::reconciliation::executor_client::{lossy_text, MsgType};
use crate::text::{chars_of, debug_option_string, decimal_of, join, owned, same_text, string_of};

verus! {

/// How the command line is used.
pub const USAGE: &'static str =
    "usage: balansir-cli {status|plan|explain|desired|actual|fingerprint|reload <config.toml>|network|identify}";

/// What the daemon is asked for.
#[derive(Debug)]
pub enum Command {
    Status,
    Plan,
    Explain,
    Desired,
    Actual,
    Fingerprint,
    /// Take over the state in a file.
    Reload(String),
    Network,
    Identify,
}

/// What the daemon is asked for, as texts.
pub enum Wish {
    Status,
    Plan,
    Explain,
    Desired,
    Actual,
    Fingerprint,
    Reload(Seq<char>),
    Network,
    Identify,
}

impl View for Command {
    type V = Wish;

    open spec fn view(&self) -> Wish {
        match self {
            Command::Status => Wish::Status,
            Command::Plan => Wish::Plan,
            Command::Explain => Wish::Explain,
            Command::Desired => Wish::Desired,
            Command::Actual => Wish::Actual,
            Command::Fingerprint => Wish::Fingerprint,
            Command::Reload(p) => Wish::Reload(p@),
            Command::Network => Wish::Network,
            Command::Identify => Wish::Identify,
        }
    }
}

/// What arguments ask for. Nothing where they cannot be understood.
pub open spec fn wish_of(args: Seq<Seq<char>>) -> Option<Wish> {
    if args.len() == 0 {
        None
    } else if args[0] == "status"@ {
        Some(Wish::Status)
    } else if args[0] == "fingerprint"@ {
        Some(Wish::Fingerprint)
    } else if args[0] == "plan"@ {
        Some(Wish::Plan)
    } else if args[0] == "explain"@ {
        Some(Wish::Explain)
    } else if args[0] == "desired"@ {
        Some(Wish::Desired)
    } else if args[0] == "actual"@ {
        Some(Wish::Actual)
    } else if args[0] == "reload"@ {
        if args.len() < 2 { None } else { Some(Wish::Reload(args[1])) }
    } else if args[0] == "network"@ {
        Some(Wish::Network)
    } else if args[0] == "identify"@ {
        Some(Wish::Identify)
    } else {
        None
    }
}

/// What arguments ask for. Nothing where they cannot be understood: the usage
/// is shown then.
pub fn parse_command(args: &Vec<String>) -> (r: Option<Command>)
    ensures
        match r {
            Some(c) => wish_of(crate::text::strings(args@)) == Some(c@),
            None => wish_of(crate::text::strings(args@)) is None,
        },
{
    let ghost all = crate::text::strings(args@);
    if args.len() == 0 {
        return None;
    }
    let cmd = args[0].as_str();
    assert(cmd@ == all[0]);
    if same_text(cmd, "status") {
        Some(Command::Status)
    } else if same_text(cmd, "fingerprint") {
        Some(Command::Fingerprint)
    } else if same_text(cmd, "plan") {
        Some(Command::Plan)
    } else if same_text(cmd, "explain") {
        Some(Command::Explain)
    } else if same_text(cmd, "desired") {
        Some(Command::Desired)
    } else if same_text(cmd, "actual") {
        Some(Command::Actual)
    } else if same_text(cmd, "reload") {
        if args.len() < 2 {
            None
        } else {
            assert(args@[1]@ == all[1]);
            Some(Command::Reload(args[1].clone()))
        }
    } else if same_text(cmd, "network") {
        Some(Command::Network)
    } else if same_text(cmd, "identify") {
        Some(Command::Identify)
    } else {
        None
    }
}

/// A number in sixteen hexadecimal digits.
pub open spec fn hex16(n: nat) -> Seq<char> {
    let digits = crate::text::hexadecimal(n);
    "0x"@ + Seq::new(if digits.len() < 16 { (16 - digits.len()) as nat } else { 0 }, |i: int| '0') + digits
}

/// A fingerprint as it is shown.
pub fn fingerprint_text(n: u64) -> (r: String)
    ensures
        r@ == hex16(n as nat),
{
    let digits = crate::text::hexadecimal_of(n);
    let count = chars_of(digits.as_str()).len();
    let mut s = owned("0x");
    let ghost head = s@;
    let mut i: usize = count;
    while i < 16
        invariant
            count <= i,
            count >= 16 ==> i == count,
            count < 16 ==> i <= 16,
            s@ == head + Seq::new((i - count) as nat, |k: int| '0'),
        decreases 16 - i,
    {
        s.append("0");
        proof {
            reveal_strlit("0");
            assert(s@ =~= head + Seq::new((i + 1 - count) as nat, |k: int| '0'));
        }
        i += 1;
    }
    s.append(digits.as_str());
    assert(s@ =~= hex16(n as nat));
    s
}

/// A fingerprint that was asked for, as it is shown with the status.
pub fn status_fingerprint(payload: &Vec<u8>) -> (r: String)
    ensures
        r@ == match crate::control::fingerprint_in(payload@) {
            Some(Some(n)) => "config fingerprint: "@ + hex16(n as nat),
            Some(None) => "config fingerprint: "@ + "none"@,
            None => "config fingerprint: "@ + "<malformed>"@,
        },
{
    let mut s = owned("config fingerprint: ");
    match fingerprint_of_payload(payload) {
        Some(Some(n)) => s.append(fingerprint_text(n).as_str()),
        Some(None) => s.append("none"),
        None => s.append("<malformed>"),
    }
    s
}

/// The error that an answer reports, if it reports one.
pub fn reply_error(reply: &IpcMessage) -> (r: Option<String>)
    ensures
        crate::text::text_of(r) == if reply.msg_type == MsgType::ResponseError {
            Some("error: "@ + crate::reconciliation::executor_client::lossy(reply.payload@))
        } else {
            None
        },
{
    if reply.msg_type == MsgType::ResponseError {
        let mut s = owned("error: ");
        s.append(lossy_text(&reply.payload).as_str());
        Some(s)
    } else {
        None
    }
}

/// A fingerprint that was asked for, as it is shown, or the error.
pub fn show_fingerprint(reply: &IpcMessage) -> (r: Result<String, String>)
    ensures
        if reply.msg_type == MsgType::ResponseError {
            r matches Err(e) && e@ == "error: "@ + crate::reconciliation::executor_client::lossy(reply.payload@)
        } else {
            match crate::control::fingerprint_in(reply.payload@) {
                Some(Some(n)) => r matches Ok(s) && s@ == hex16(n as nat),
                Some(None) => r matches Ok(s) && s@ == "none"@,
                None => r matches Err(e) && e@ == "error: malformed fingerprint"@,
            }
        },
{
    if let Some(e) = reply_error(reply) {
        return Err(e);
    }
    match fingerprint_of_payload(&reply.payload) {
        Some(Some(n)) => Ok(fingerprint_text(n)),
        Some(None) => Ok(owned("none")),
        None => Err(owned("error: malformed fingerprint")),
    }
}

/// A request for a page.
pub fn http_request(addr: &str, path: &str) -> (r: String)
    ensures
        r@ == "GET "@ + path@ + " HTTP/1.0\r\nHost: "@ + addr@ + "\r\nConnection: close\r\n\r\n"@,
{
    let mut s = owned("GET ");
    s.append(path);
    s.append(" HTTP/1.0\r\nHost: ");
    s.append(addr);
    s.append("\r\nConnection: close\r\n\r\n");
    s
}

/// Whether a blank line is at a place.
pub open spec fn blank_line_at(s: Seq<char>, i: int) -> bool {
    &&& 0 <= i
    &&& i + 4 <= s.len()
    &&& s[i] == '\r'
    &&& s[i + 1] == '\n'
    &&& s[i + 2] == '\r'
    &&& s[i + 3] == '\n'
}

/// The body of a response: what is behind the first blank line. Nothing where
/// there is none.
pub fn http_body(raw: &Vec<u8>) -> (r: Option<String>)
    ensures
        ({
            let text = crate::reconciliation::executor_client::lossy(raw@);
            match r {
                Some(body) => exists|i: int| #[trigger]
                    blank_line_at(text, i) && body@ == text.skip(i + 4) && forall|k: int|
                        0 <= k < i ==> !#[trigger] blank_line_at(text, k),
                None => forall|k: int| !#[trigger] blank_line_at(text, k),
            }
        }),
{
    let whole = lossy_text(raw);
    let text = chars_of(whole.as_str());
    let mut i: usize = 0;
    while i < text.len() && text.len() - i >= 4
        invariant
            i <= text@.len(),
            text@ == crate::reconciliation::executor_client::lossy(raw@),
            forall|k: int| 0 <= k < i ==> !#[trigger] blank_line_at(text@, k),
        decreases text.len() - i,
    {
        if text[i] == '\r' && text[i + 1] == '\n' && text[i + 2] == '\r' && text[i + 3] == '\n' {
            assert(blank_line_at(text@, i as int));
            assert(text@.subrange(i as int + 4, text@.len() as int) =~= text@.skip(i as int + 4));
            return Some(string_of(slice_subrange(&text, i + 4, text.len())));
        }
        i += 1;
    }
    None
}

/// The texts of a list, with nothing in the place of what is no text.
pub open spec fn list_words(v: Seq<Option<Seq<char>>>) -> Seq<Seq<char>> {
    Seq::new(
        v.len(),
        |i: int|
            match v[i] {
                Some(s) => s,
                None => ""@,
            },
    )
}

/// What a field is shown as.
pub open spec fn shown(f: crate::json::Field) -> Seq<char> {
    match f {
        crate::json::Field::Text(s) => s,
        crate::json::Field::List(v) => crate::text::joined(list_words(v), ","@),
        crate::json::Field::Flag(b) => if b { "true"@ } else { "false"@ },
        crate::json::Field::Number { text, .. } => text,
        crate::json::Field::Other(s) => s,
        crate::json::Field::Missing => "-"@,
        crate::json::Field::Unreadable => "-"@,
    }
}

/// What a field is shown as.
pub fn show_field(f: &JsonField) -> (r: String)
    ensures
        r@ == shown(f@),
{
    match f {
        JsonField::Text(s) => s.clone(),
        JsonField::List(v) => {
            let mut words: Vec<String> = Vec::new();
            let mut i: usize = 0;
            while i < v.len()
                invariant
                    i <= v@.len(),
                    words@.len() == i,
                    forall|k: int|
                        0 <= k < i ==> (#[trigger] words@[k])@ == list_words(crate::json::option_texts(v@))[k],
                decreases v.len() - i,
            {
                let word = match &v[i] {
                    Some(s) => s.clone(),
                    None => owned(""),
                };
                words.push(word);
                i += 1;
            }
            assert(crate::text::strings(words@) =~= list_words(crate::json::option_texts(v@)));
            join(&words, ",")
        },
        JsonField::Flag(b) => owned(if *b { "true" } else { "false" }),
        JsonField::Number { text, .. } => text.clone(),
        JsonField::Other(s) => s.clone(),
        JsonField::Missing => owned("-"),
        JsonField::Unreadable => owned("-"),
    }
}

/// The member of an object as it is shown.
pub fn jstr(item: &str, key: &str) -> (r: String)
    ensures
        r@ == shown(crate::json::member(item@, key@)),
{
    let f = json_field(item, key);
    show_field(&f)
}

/// The text that a field holds.
pub open spec fn text_in(f: crate::json::Field) -> Option<Seq<char>> {
    match f {
        crate::json::Field::Text(s) => Some(s),
        _ => None,
    }
}

/// The text that a field holds.
pub fn field_text(f: &JsonField) -> (r: Option<String>)
    ensures
        crate::text::text_of(r) == text_in(f@),
{
    match f {
        JsonField::Text(s) => Some(s.clone()),
        _ => None,
    }
}

/// The member of an object, where it is a text.
pub fn jstr_opt(item: &str, key: &str) -> (r: Option<String>)
    ensures
        crate::text::text_of(r) == text_in(crate::json::member(item@, key@)),
{
    let f = json_field(item, key);
    field_text(&f)
}

/// Whether a field says yes.
pub open spec fn says_yes(f: crate::json::Field) -> bool {
    f matches crate::json::Field::Flag(b) && b
}

/// Whether a field says yes.
pub fn field_flag(f: &JsonField) -> (r: bool)
    ensures
        r == says_yes(f@),
{
    match f {
        JsonField::Flag(b) => *b,
        _ => false,
    }
}

/// Whether the member of an object says yes.
pub fn jbool(item: &str, key: &str) -> (r: bool)
    ensures
        r == says_yes(crate::json::member(item@, key@)),
{
    let f = json_field(item, key);
    field_flag(&f)
}

/// A text with blanks behind it, for a column.
pub open spec fn padded(s: Seq<char>, width: nat) -> Seq<char> {
    s + Seq::new(if s.len() < width { (width - s.len()) as nat } else { 0 }, |i: int| ' ')
}

/// A text with blanks behind it, for a column.
pub fn pad(s: &str, width: usize) -> (r: String)
    ensures
        r@ == padded(s@, width as nat),
{
    let count = chars_of(s).len();
    let mut out = owned(s);
    let mut i: usize = count;
    while i < width
        invariant
            count <= i,
            count == s@.len(),
            count >= width ==> i == count,
            count < width ==> i <= width,
            out@ == s@ + Seq::new((i - count) as nat, |k: int| ' '),
        decreases width - i,
    {
        out.append(" ");
        proof {
            reveal_strlit(" ");
            assert(out@ =~= s@ + Seq::new((i + 1 - count) as nat, |k: int| ' '));
        }
        i += 1;
    }
    out
}

/// A row of the table of interfaces.
pub open spec fn row_text(
    name: Seq<char>,
    link: Seq<char>,
    role: Seq<char>,
    driver: Seq<char>,
    mac: Seq<char>,
    usb: Seq<char>,
    ipv4: Seq<char>,
) -> Seq<char> {
    padded(name, 12) + " "@ + padded(link, 5) + " "@ + padded(role, 6) + " "@ + padded(driver, 14) + " "@ + padded(
        mac,
        17,
    ) + " "@ + padded(usb, 22) + " "@ + ipv4
}

fn row(name: &str, link: &str, role: &str, driver: &str, mac: &str, usb: &str, ipv4: &str) -> (r: String)
    ensures
        r@ == row_text(name@, link@, role@, driver@, mac@, usb@, ipv4@),
{
    let mut s = pad(name, 12);
    s.append(" ");
    s.append(pad(link, 5).as_str());
    s.append(" ");
    s.append(pad(role, 6).as_str());
    s.append(" ");
    s.append(pad(driver, 14).as_str());
    s.append(" ");
    s.append(pad(mac, 17).as_str());
    s.append(" ");
    s.append(pad(usb, 22).as_str());
    s.append(" ");
    s.append(ipv4);
    s
}

/// The head of the table of interfaces.
pub fn network_header() -> (r: String)
    ensures
        r@ == row_text("NAME"@, "LINK"@, "ROLE"@, "DRIVER"@, "MAC"@, "USB"@, "IPv4"@),
{
    row("NAME", "LINK", "ROLE", "DRIVER", "MAC", "USB", "IPv4")
}

/// Whether a link is up, in words.
pub open spec fn link_word(up: bool) -> Seq<char> {
    if up { "UP"@ } else { "DOWN"@ }
}

/// The identity of a device on the bus, where both halves are known.
pub open spec fn usb_text(vendor: Option<Seq<char>>, product: Option<Seq<char>>) -> Seq<char> {
    match (vendor, product) {
        (Some(v), Some(p)) => v + ":"@ + p,
        _ => "-"@,
    }
}

fn show_usb(vendor: &Option<String>, product: &Option<String>) -> (r: String)
    ensures
        r@ == usb_text(crate::text::text_of(*vendor), crate::text::text_of(*product)),
{
    match (vendor, product) {
        (Some(v), Some(p)) => {
            let mut s = v.clone();
            s.append(":");
            s.append(p.as_str());
            s
        },
        _ => owned("-"),
    }
}

/// The row of an interface in the table.
pub fn network_row(item: &str) -> (r: String)
    ensures
        r@ == row_text(
            shown(crate::json::member(item@, "name"@)),
            link_word(says_yes(crate::json::member(item@, "link_up"@))),
            shown(crate::json::member(item@, "role"@)),
            shown(crate::json::member(item@, "driver"@)),
            shown(crate::json::member(item@, "mac"@)),
            usb_text(
                text_in(crate::json::member(item@, "vendor_id"@)),
                text_in(crate::json::member(item@, "product_id"@)),
            ),
            shown(crate::json::member(item@, "ipv4"@)),
        ),
{
    let vendor = jstr_opt(item, "vendor_id");
    let product = jstr_opt(item, "product_id");
    let usb = show_usb(&vendor, &product);
    row(
        jstr(item, "name").as_str(),
        if jbool(item, "link_up") { "UP" } else { "DOWN" },
        jstr(item, "role").as_str(),
        jstr(item, "driver").as_str(),
        jstr(item, "mac").as_str(),
        usb.as_str(),
        jstr(item, "ipv4").as_str(),
    )
}

/// An optional number as the debug format writes it.
pub open spec fn debug_number(n: Option<u64>) -> Seq<char> {
    match n {
        Some(v) => "Some("@ + crate::text::decimal(v as nat) + ")"@,
        None => "None"@,
    }
}

fn show_number(n: Option<u64>) -> (r: String)
    ensures
        r@ == debug_number(n),
{
    match n {
        Some(v) => {
            let mut s = owned("Some(");
            s.append(decimal_of(v).as_str());
            s.append(")");
            s
        },
        None => owned("None"),
    }
}

/// What is known of an interface, in lines.
pub open spec fn identity_text(item: Seq<char>) -> Seq<char> {
    "interface "@ + shown(crate::json::member(item, "name"@)) + "\n  role:       "@ + shown(
        crate::json::member(item, "role"@),
    ) + "\n  kind/bus:   "@ + shown(crate::json::member(item, "kind"@)) + "/"@ + shown(
        crate::json::member(item, "bus"@),
    ) + "\n  driver:     "@ + shown(crate::json::member(item, "driver"@)) + "\n  mac:        "@ + shown(
        crate::json::member(item, "mac"@),
    ) + " (factory: "@ + shown(crate::json::member(item, "hardware_mac"@)) + ")\n  usb:        "@ + shown(
        crate::json::member(item, "vendor_id"@),
    ) + ":"@ + shown(crate::json::member(item, "product_id"@)) + " ("@ + shown(
        crate::json::member(item, "device_model"@),
    ) + ")\n  link:       "@ + link_word(says_yes(crate::json::member(item, "link_up"@))) + " speed="@ + debug_number(
        crate::interface_probe::number_in(crate::json::member(item, "speed_mbps"@)),
    ) + "Mbps duplex="@ + crate::text::debug_option(text_in(crate::json::member(item, "duplex"@)))
        + "\n  ipv4:       "@ + shown(crate::json::member(item, "ipv4"@)) + "\n"@
}

/// What is known of an interface, in lines.
pub fn identify(item: &str) -> (r: String)
    ensures
        r@ == identity_text(item@),
{
    let mut s = owned("interface ");
    s.append(jstr(item, "name").as_str());
    s.append("\n  role:       ");
    s.append(jstr(item, "role").as_str());
    s.append("\n  kind/bus:   ");
    s.append(jstr(item, "kind").as_str());
    s.append("/");
    s.append(jstr(item, "bus").as_str());
    s.append("\n  driver:     ");
    s.append(jstr(item, "driver").as_str());
    s.append("\n  mac:        ");
    s.append(jstr(item, "mac").as_str());
    s.append(" (factory: ");
    s.append(jstr(item, "hardware_mac").as_str());
    s.append(")\n  usb:        ");
    s.append(jstr(item, "vendor_id").as_str());
    s.append(":");
    s.append(jstr(item, "product_id").as_str());
    s.append(" (");
    s.append(jstr(item, "device_model").as_str());
    s.append(")\n  link:       ");
    s.append(if jbool(item, "link_up") { "UP" } else { "DOWN" });
    s.append(" speed=");
    let speed = json_field(item, "speed_mbps");
    s.append(show_number(crate::interface_probe::field_number(&speed)).as_str());
    s.append("Mbps duplex=");
    let duplex = jstr_opt(item, "duplex");
    s.append(debug_option_string(&duplex).as_str());
    s.append("\n  ipv4:       ");
    s.append(jstr(item, "ipv4").as_str());
    s.append("\n");
    s
}

/// The interfaces that a page lists, each as a document, or why it lists none.
pub fn listed_interfaces(body: &str) -> (r: Result<Vec<String>, String>)
    ensures
        match crate::json::items(body@) {
            Ok(Some(v)) => r matches Ok(l) && crate::text::strings(l@) == v,
            Ok(None) => r matches Err(e) && e@ == "error: unexpected /interfaces payload"@,
            Err(why) => r matches Err(e) && e@ == "api /interfaces: "@ + why,
        },
{
    match json_items(body) {
        Ok(Some(v)) => Ok(v),
        Ok(None) => Err(owned("error: unexpected /interfaces payload")),
        Err(why) => {
            let mut s = owned("api /interfaces: ");
            s.append(why.as_str());
            Err(s)
        },
    }
}

/// A command is what its first word says; a reload takes the path behind it, and
/// is none without one. Nothing else is a command.
pub proof fn words_are_commands(args: Seq<Seq<char>>)
    ensures
        args.len() == 0 ==> wish_of(args) is None,
        args.len() > 0 && args[0] == "status"@ ==> wish_of(args) == Some(Wish::Status),
        args.len() > 0 && args[0] == "plan"@ ==> wish_of(args) == Some(Wish::Plan),
        args.len() > 0 && args[0] == "explain"@ ==> wish_of(args) == Some(Wish::Explain),
        args.len() > 0 && args[0] == "desired"@ ==> wish_of(args) == Some(Wish::Desired),
        args.len() > 0 && args[0] == "actual"@ ==> wish_of(args) == Some(Wish::Actual),
        args.len() > 0 && args[0] == "fingerprint"@ ==> wish_of(args) == Some(Wish::Fingerprint),
        args.len() > 0 && args[0] == "network"@ ==> wish_of(args) == Some(Wish::Network),
        args.len() > 0 && args[0] == "identify"@ ==> wish_of(args) == Some(Wish::Identify),
        args.len() > 1 && args[0] == "reload"@ ==> wish_of(args) == Some(Wish::Reload(args[1])),
        args.len() == 1 && args[0] == "reload"@ ==> wish_of(args) is None,
        args.len() > 0 && ![
            "status"@,
            "plan"@,
            "explain"@,
            "desired"@,
            "actual"@,
            "fingerprint"@,
            "network"@,
            "identify"@,
            "reload"@,
        ]@.contains(args[0]) ==> wish_of(args) is None,
{
    reveal_strlit("status");
    reveal_strlit("plan");
    reveal_strlit("explain");
    reveal_strlit("desired");
    reveal_strlit("actual");
    reveal_strlit("fingerprint");
    reveal_strlit("network");
    reveal_strlit("identify");
    reveal_strlit("reload");
    assert("status"@[0] == 's' && "plan"@[0] == 'p' && "explain"@[0] == 'e' && "desired"@[0] == 'd');
    assert("actual"@[0] == 'a' && "fingerprint"@[0] == 'f' && "network"@[0] == 'n' && "identify"@[0] == 'i');
    assert("reload"@[0] == 'r');
    let all = [
        "status"@,
        "plan"@,
        "explain"@,
        "desired"@,
        "actual"@,
        "fingerprint"@,
        "network"@,
        "identify"@,
        "reload"@,
    ]@;
    assert(all[0] == "status"@ && all[1] == "plan"@ && all[2] == "explain"@ && all[3] == "desired"@);
    assert(all[4] == "actual"@ && all[5] == "fingerprint"@ && all[6] == "network"@ && all[7] == "identify"@);
    assert(all[8] == "reload"@);
}

/// A field that is text is shown as it is; a list with commas between its items;
/// what is missing as a dash.
pub proof fn fields_are_shown(text: Seq<char>, value: Option<u64>, list: Seq<Option<Seq<char>>>)
    ensures
        shown(crate::json::Field::Text(text)) == text,
        shown(crate::json::Field::Number { text, value }) == text,
        shown(crate::json::Field::Flag(true)) == "true"@,
        shown(crate::json::Field::Flag(false)) == "false"@,
        shown(crate::json::Field::Other(text)) == text,
        shown(crate::json::Field::Missing) == "-"@,
        shown(crate::json::Field::Unreadable) == "-"@,
        shown(crate::json::Field::List(list)) == crate::text::joined(list_words(list), ","@),
        text_in(crate::json::Field::Text(text)) == Some(text),
        text_in(crate::json::Field::Missing) is None,
        text_in(crate::json::Field::Number { text, value }) is None,
        says_yes(crate::json::Field::Flag(true)),
        !says_yes(crate::json::Field::Flag(false)),
        !says_yes(crate::json::Field::Text(text)),
        !says_yes(crate::json::Field::Missing),
{
}

/// A column is as wide as it has to be, and no text is cut.
pub proof fn columns_are_filled_with_spaces(s: Seq<char>, width: nat, i: int)
    ensures
        padded(s, width).len() == if s.len() < width { width } else { s.len() },
        padded(s, width).take(s.len() as int) == s,
        s.len() <= i < padded(s, width).len() ==> padded(s, width)[i] == ' ',
{
    assert(padded(s, width).take(s.len() as int) =~= s);
}

/// A row has its columns in order, each as wide as the heading of the table
/// needs, with a space between them.
pub proof fn rows_have_their_columns_in_order(
    name: Seq<char>,
    link: Seq<char>,
    role: Seq<char>,
    driver: Seq<char>,
    mac: Seq<char>,
    usb: Seq<char>,
    ipv4: Seq<char>,
)
    ensures
        row_text(name, link, role, driver, mac, usb, ipv4) == padded(name, 12) + " "@ + padded(link, 5) + " "@ + padded(
            role,
            6,
        ) + " "@ + padded(driver, 14) + " "@ + padded(mac, 17) + " "@ + padded(usb, 22) + " "@ + ipv4,
        link_word(true) == "UP"@,
        link_word(false) == "DOWN"@,
{
}

/// A device is shown by vendor and product where both are known.
pub proof fn devices_are_shown_by_both_numbers(vendor: Option<Seq<char>>, product: Option<Seq<char>>)
    ensures
        vendor is Some && product is Some ==> usb_text(vendor, product) == vendor->0 + ":"@ + product->0,
        vendor is None || product is None ==> usb_text(vendor, product) == "-"@,
{
}

proof fn leading_zeros(k: nat, s: Seq<char>)
    ensures
        crate::text::hex_number(Seq::new(k, |i: int| '0') + s) == crate::text::hex_number(s),
    decreases s.len(), k,
{
    let z = Seq::new(k, |i: int| '0');
    if s.len() > 0 {
        leading_zeros(k, s.drop_last());
        assert((z + s).drop_last() =~= z + s.drop_last());
        assert((z + s).last() == s.last());
    } else if k > 0 {
        let y = Seq::new((k - 1) as nat, |i: int| '0');
        leading_zeros((k - 1) as nat, s);
        assert((z + s).drop_last() =~= y + s);
        assert((z + s).last() == '0');
    } else {
        assert(z + s =~= s);
    }
}

/// A fingerprint is shown in hexadecimal, with at least sixteen digits behind
/// `0x`, and the digits say its number.
pub proof fn fingerprints_are_shown_in_hexadecimal(n: nat)
    ensures
        hex16(n).len() >= 18,
        hex16(n)[0] == '0' && hex16(n)[1] == 'x',
        crate::text::hex_number(hex16(n).skip(2)) == n,
        crate::text::hexadecimal(n).len() <= 16 ==> hex16(n).len() == 18,
{
    reveal_strlit("0x");
    crate::text::hexadecimals_are_read_back(n, n);
    let digits = crate::text::hexadecimal(n);
    let k = if digits.len() < 16 { (16 - digits.len()) as nat } else { 0 };
    let z = Seq::new(k, |i: int| '0');
    leading_zeros(k, digits);
    assert(hex16(n).skip(2) =~= z + digits);
    assert(crate::text::is_hex(digits[0]));
    assert(crate::text::without_plus(digits) == digits);
}

} // verus!
