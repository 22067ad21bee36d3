//! Debug reports: small JSON messages that a running server posts to a
//! collector on the same machine.

use vstd::prelude::*;
use vstd::utf8::encode_utf8;

use crate::outside::{json_object, json_text};
use crate::text::{
    a_beginning_is_a_prefix, chars_of, cut, decimal, decimal_text, find_from, is_white, lines,
    lines_of, pairs, starts, starts_with, text_between, text_of, texts,
    the_first_of_a_character_cuts, trim, trimmed, trimming_takes_white_space_off,
};

verus! {

/// One value in a report.
#[derive(Debug, Clone)]
pub enum FieldValue {
    Text(String),
    Number(u32),
    Flag(bool),
    List(Vec<String>),
    Absent,
}

/// A [`FieldValue`] with its texts as character sequences.
pub enum FieldView {
    Text(Seq<char>),
    Number(u32),
    Flag(bool),
    List(Seq<Seq<char>>),
    Absent,
}

impl View for FieldValue {
    type V = FieldView;

    open spec fn view(&self) -> FieldView {
        match *self {
            FieldValue::Text(t) => FieldView::Text(t@),
            FieldValue::Number(n) => FieldView::Number(n),
            FieldValue::Flag(b) => FieldView::Flag(b),
            FieldValue::List(l) => FieldView::List(texts(l@)),
            FieldValue::Absent => FieldView::Absent,
        }
    }
}

/// A named value in a report.
#[derive(Debug, Clone)]
pub struct Field {
    pub name: String,
    pub value: FieldValue,
}

/// What a list of fields holds.
pub open spec fn fields_view(fields: Seq<Field>) -> Seq<(Seq<char>, FieldView)> {
    fields.map_values(|f: Field| (f.name@, f.value@))
}

/// Where reports go, and under which session.
#[derive(Debug, Clone)]
pub struct ReportConfig {
    pub url: String,
    pub session: String,
}

/// A [`ReportConfig`] with its texts as character sequences.
pub struct ReportConfigView {
    pub url: Seq<char>,
    pub session: Seq<char>,
}

impl View for ReportConfig {
    type V = ReportConfigView;

    open spec fn view(&self) -> ReportConfigView {
        ReportConfigView { url: self.url@, session: self.session@ }
    }
}

/// Where reports go unless a file says otherwise.
pub open spec fn usual_config() -> ReportConfigView {
    ReportConfigView { url: "http://127.0.0.1:7777/event"@, session: "ssh-tty-failure"@ }
}

/// The setting after one more line.
pub open spec fn with_setting(cfg: ReportConfigView, line: Seq<char>) -> ReportConfigView {
    if starts(line, "DEBUG_SERVER_URL="@) {
        ReportConfigView { url: trimmed(line.skip("DEBUG_SERVER_URL="@.len() as int)), ..cfg }
    } else if starts(line, "DEBUG_SESSION_ID="@) {
        ReportConfigView { session: trimmed(line.skip("DEBUG_SESSION_ID="@.len() as int)), ..cfg }
    } else {
        cfg
    }
}

/// The setting that the lines of a file make, the last one of each kind
/// counting.
pub open spec fn settings_in(ls: Seq<Seq<char>>) -> ReportConfigView
    decreases ls.len(),
{
    if ls.len() == 0 {
        usual_config()
    } else {
        with_setting(settings_in(ls.drop_last()), ls.last())
    }
}

/// What stands behind a prefix, trimmed, where a line begins with it.
fn value_of(line: &str, prefix: &str) -> (r: Option<String>)
    ensures
        text_of(r) == if starts(line@, prefix@) {
            Some(trimmed(line@.skip(prefix@.len() as int)))
        } else {
            None
        },
{
    let v = chars_of(line);
    let p = chars_of(prefix);
    if !starts_with(&v, &p) {
        return None;
    }
    let n: usize = v.len();
    let value = text_between(&v, p.len(), n);
    assert(value@ =~= line@.skip(prefix@.len() as int));
    Some(trim(value.as_str()))
}

/// Where reports go, given the contents of the settings file if there is one.
pub fn debug_config(raw: Option<&str>) -> (out: ReportConfig)
    ensures
        out@ == match raw {
            Some(text) => settings_in(lines_of(text@)),
            None => usual_config(),
        },
{
    let mut out = ReportConfig {
        url: "http://127.0.0.1:7777/event".to_string(),
        session: "ssh-tty-failure".to_string(),
    };
    let text = match raw {
        Some(text) => text,
        None => {
            return out;
        },
    };
    let all = lines(text);
    let ghost ls = lines_of(text@);
    let mut i: usize = 0;
    assert(ls.take(0) =~= Seq::empty());
    while i < all.len()
        invariant
            i <= all@.len(),
            texts(all@) == ls,
            out@ == settings_in(ls.take(i as int)),
        decreases all@.len() - i,
    {
        let line = all[i].as_str();
        assert(ls[i as int] == line@);
        assert(ls.take(i + 1).drop_last() =~= ls.take(i as int));
        assert(ls.take(i + 1).last() == line@);
        match value_of(line, "DEBUG_SERVER_URL=") {
            Some(url) => {
                out.url = url;
            },
            None => match value_of(line, "DEBUG_SESSION_ID=") {
                Some(session) => {
                    out.session = session;
                },
                None => {},
            },
        }
        i += 1;
    }
    assert(ls.take(i as int) =~= ls);
    out
}

/// A report.
#[derive(Debug, Clone)]
pub struct Report {
    pub run_id: String,
    pub hypothesis_id: String,
    pub location: String,
    pub msg: String,
    pub data: Vec<Field>,
}

/// The text members of a report's JSON.
pub open spec fn report_members(session: Seq<char>, report: Report) -> Seq<(Seq<char>, Seq<char>)> {
    seq![
        ("sessionId"@, session),
        ("runId"@, report.run_id@),
        ("hypothesisId"@, report.hypothesis_id@),
        ("location"@, report.location@),
        ("msg"@, report.msg@),
    ]
}

/// A report's JSON.
pub open spec fn report_json(session: Seq<char>, report: Report) -> Seq<char> {
    json_object(report_members(session, report), "data"@, fields_view(report.data@))
}

/// The host and the path that a collector's URL names. Without a path it is
/// `event`; a URL of another scheme names nothing.
pub open spec fn collector(url: Seq<char>) -> Option<(Seq<char>, Seq<char>)> {
    if starts(url, "http://"@) {
        let rest = url.skip("http://"@.len() as int);
        match cut(rest, '/') {
            Some((authority, path)) => Some((authority, path)),
            None => Some((rest, "event"@)),
        }
    } else {
        None
    }
}

/// An HTTP request that posts JSON.
pub open spec fn post(authority: Seq<char>, path: Seq<char>, payload: Seq<char>) -> Seq<char> {
    "POST /"@ + path + " HTTP/1.1\r\nHost: "@ + authority
        + "\r\nContent-Type: application/json\r\nContent-Length: "@ + decimal(
        encode_utf8(payload).len() as usize as int,
    ) + "\r\nConnection: close\r\n\r\n"@ + payload
}

/// The host and the path that a collector's URL names.
pub fn collector_of(url: &str) -> (r: Option<(String, String)>)
    ensures
        match r {
            Some(pair) => collector(url@) == Some((pair.0@, pair.1@)),
            None => collector(url@) is None,
        },
{
    let v = chars_of(url);
    let p = chars_of("http://");
    if !starts_with(&v, &p) {
        return None;
    }
    let from: usize = p.len();
    let n: usize = v.len();
    let ghost rest = v@.skip(from as int);
    let slash: usize = find_from(&v, from, '/');
    let authority = text_between(&v, from, slash);
    if slash < n {
        let path = text_between(&v, slash + 1, n);
        assert(authority@ =~= rest.take(slash - from));
        assert(path@ =~= rest.skip(slash - from + 1));
        Some((authority, path))
    } else {
        assert(authority@ =~= rest);
        Some((authority, "event".to_string()))
    }
}

/// An HTTP request that posts JSON.
pub fn post_request(authority: &str, path: &str, payload: &str) -> (out: String)
    ensures
        out@ == post(authority@, path@, payload@),
{
    let length = decimal_text(payload.len() as u64);
    "POST /".to_string().concat(path).concat(" HTTP/1.1\r\nHost: ").concat(authority).concat(
        "\r\nContent-Type: application/json\r\nContent-Length: ",
    ).concat(length.as_str()).concat("\r\nConnection: close\r\n\r\n").concat(payload)
}

/// Adds a text member.
fn push_member(members: &mut Vec<(String, String)>, name: &str, text: String)
    ensures
        pairs(final(members)@) == pairs(old(members)@).push((name@, text@)),
{
    let ghost before = pairs(members@);
    let ghost tv = text@;
    members.push((name.to_string(), text));
    assert(pairs(members@) =~= before.push((name@, tv)));
}

/// A report's JSON.
fn report_text(session: String, report: Report) -> (out: String)
    ensures
        out@ == report_json(session@, report),
{
    let mut members: Vec<(String, String)> = Vec::new();
    let ghost expected = report_members(session@, report);
    push_member(&mut members, "sessionId", session);
    push_member(&mut members, "runId", report.run_id);
    push_member(&mut members, "hypothesisId", report.hypothesis_id);
    push_member(&mut members, "location", report.location);
    push_member(&mut members, "msg", report.msg);
    assert(pairs(members@) =~= expected);
    json_text(members, "data".to_string(), report.data)
}

/// The host that a report goes to and the request that carries it, unless the
/// collector's URL names no host.
pub fn debug_report(cfg: ReportConfig, report: Report) -> (r: Option<(String, String)>)
    ensures
        match (collector(cfg@.url), r) {
            (Some((authority, path)), Some(pair)) => pair.0@ == authority && pair.1@ == post(
                authority,
                path,
                report_json(cfg@.session, report),
            ),
            (None, None) => true,
            _ => false,
        },
{
    match collector_of(cfg.url.as_str()) {
        Some((authority, path)) => {
            let payload = report_text(cfg.session, report);
            let request = post_request(authority.as_str(), path.as_str(), payload.as_str());
            Some((authority, request))
        },
        None => None,
    }
}

/// Law: a setting is what stands behind its name, without the white space
/// around it; the last line of a kind counts, and other lines do not.
pub proof fn the_last_setting_of_a_kind_counts(
    ls: Seq<Seq<char>>,
    front: Seq<char>,
    value: Seq<char>,
    back: Seq<char>,
    line: Seq<char>,
)
    requires
        forall|i: int| 0 <= i < front.len() ==> is_white(#[trigger] front[i]),
        forall|i: int| 0 <= i < back.len() ==> is_white(#[trigger] back[i]),
        value.len() > 0 ==> !is_white(value[0]) && !is_white(value.last()),
        !"DEBUG_SERVER_URL="@.is_prefix_of(line),
        !"DEBUG_SESSION_ID="@.is_prefix_of(line),
    ensures
        settings_in(Seq::empty()).url == "http://127.0.0.1:7777/event"@,
        settings_in(Seq::empty()).session == "ssh-tty-failure"@,
        settings_in(ls.push("DEBUG_SERVER_URL="@ + (front + value + back))).url == value,
        settings_in(ls.push("DEBUG_SERVER_URL="@ + (front + value + back))).session == settings_in(
            ls,
        ).session,
        settings_in(ls.push("DEBUG_SESSION_ID="@ + (front + value + back))).session == value,
        settings_in(ls.push("DEBUG_SESSION_ID="@ + (front + value + back))).url == settings_in(
            ls,
        ).url,
        settings_in(ls.push(line)) == settings_in(ls),
{
    reveal_strlit("DEBUG_SERVER_URL=");
    reveal_strlit("DEBUG_SESSION_ID=");
    let text = front + value + back;
    let a = "DEBUG_SERVER_URL="@ + text;
    let b = "DEBUG_SESSION_ID="@ + text;
    assert(ls.push(a).drop_last() =~= ls);
    assert(ls.push(b).drop_last() =~= ls);
    assert(ls.push(line).drop_last() =~= ls);
    assert(a.take("DEBUG_SERVER_URL="@.len() as int) =~= "DEBUG_SERVER_URL="@);
    assert(b.take("DEBUG_SESSION_ID="@.len() as int) =~= "DEBUG_SESSION_ID="@);
    assert(a.skip("DEBUG_SERVER_URL="@.len() as int) =~= text);
    assert(b.skip("DEBUG_SESSION_ID="@.len() as int) =~= text);
    assert(b[8] == 'S');
    if starts(b, "DEBUG_SERVER_URL="@) {
        assert(b.take("DEBUG_SERVER_URL="@.len() as int)[8] == b[8]);
    }
    trimming_takes_white_space_off(front, value, back);
    a_beginning_is_a_prefix(line, "DEBUG_SERVER_URL="@);
    a_beginning_is_a_prefix(line, "DEBUG_SESSION_ID="@);
}

/// Law: a collector's URL names a host up to the first slash and a path behind
/// it, or `event` where there is no slash; a URL that is not plain HTTP names
/// nothing.
pub proof fn a_collector_is_a_host_and_a_path(
    authority: Seq<char>,
    path: Seq<char>,
    url: Seq<char>,
)
    requires
        !authority.contains('/'),
        !"http://"@.is_prefix_of(url),
    ensures
        collector("http://"@ + (authority + seq!['/'] + path)) == Some((authority, path)),
        collector("http://"@ + authority) == Some((authority, "event"@)),
        collector(url) is None,
{
    let a = "http://"@ + (authority + seq!['/'] + path);
    let b = "http://"@ + authority;
    assert(a.take("http://"@.len() as int) =~= "http://"@);
    assert(b.take("http://"@.len() as int) =~= "http://"@);
    assert(a.skip("http://"@.len() as int) =~= authority + seq!['/'] + path);
    assert(b.skip("http://"@.len() as int) =~= authority);
    the_first_of_a_character_cuts(authority, '/', path);
    a_beginning_is_a_prefix(url, "http://"@);
}

/// Law: a report is posted to its path at its host, with the length of its
/// JSON in bytes, and the JSON behind the headers.
pub proof fn a_report_is_posted_whole(authority: Seq<char>, path: Seq<char>, payload: Seq<char>)
    ensures
        post(authority, path, payload) == "POST /"@ + path + " HTTP/1.1\r\nHost: "@ + authority
            + "\r\nContent-Type: application/json\r\nContent-Length: "@ + decimal(
            encode_utf8(payload).len() as usize as int,
        ) + "\r\nConnection: close\r\n\r\n"@ + payload,
{
}

/// Law: a report's JSON holds the session, the run, the hypothesis, the place
/// and the message, each under its name, and the fields under `data`.
pub proof fn a_report_holds_what_it_is_about(session: Seq<char>, report: Report)
    ensures
        report_json(session, report) == json_object(
            seq![
                ("sessionId"@, session),
                ("runId"@, report.run_id@),
                ("hypothesisId"@, report.hypothesis_id@),
                ("location"@, report.location@),
                ("msg"@, report.msg@),
            ],
            "data"@,
            fields_view(report.data@),
        ),
{
}

/// Law: fields and settings are seen as they are, fields one for one.
pub proof fn fields_are_seen_as_they_are(
    fields: Seq<Field>,
    cfg: ReportConfig,
    text: String,
    number: u32,
    flag: bool,
    list: Vec<String>,
)
    ensures
        fields_view(fields).len() == fields.len(),
        forall|i: int|
            0 <= i < fields.len() ==> #[trigger] fields_view(fields)[i] == (
                fields[i].name@,
                fields[i].value@,
            ),
        cfg@.url == cfg.url@,
        cfg@.session == cfg.session@,
        FieldValue::Text(text)@ == FieldView::Text(text@),
        FieldValue::Number(number)@ == FieldView::Number(number),
        FieldValue::Flag(flag)@ == FieldView::Flag(flag),
        FieldValue::List(list)@ == FieldView::List(texts(list@)),
        FieldValue::Absent@ == FieldView::Absent,
{
}

/// Law: without a settings file reports go to the usual collector, and a report
/// is posted to the host of its collector.
pub proof fn reports_go_to_their_collector(
    usual: ReportConfig,
    cfg: ReportConfig,
    report: Report,
    r: Option<(String, String)>,
    authority: Seq<char>,
    path: Seq<char>,
)
    requires
        call_ensures(debug_config, (None,), usual),
        call_ensures(debug_report, (cfg, report), r),
        !authority.contains('/'),
        cfg.url@ == "http://"@ + (authority + seq!['/'] + path),
    ensures
        usual.url@ == "http://127.0.0.1:7777/event"@,
        usual.session@ == "ssh-tty-failure"@,
        r matches Some(sent) && sent.0@ == authority && sent.1@ == post(
            authority,
            path,
            report_json(cfg.session@, report),
        ),
{
    reveal_strlit("http://");
    a_collector_is_a_host_and_a_path(authority, path, Seq::empty());
}

} // verus!
