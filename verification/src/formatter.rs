//! The record formatter: combines a span's or event's fields with the
//! required schema fields, default fields and skip-list filtering, and
//! renders one complete JSON line per span transition or event in the Bunyan
//! format.

use vstd::prelude::*;

use crate::clock::{format_rfc3339_utc, now_utc_parts, spec_rfc3339, UtcTimestamp};
use crate::storage::{field_views, Field, JsonStorage};
use crate::text::{push_char, spec_escape, str_eq};
use crate::value::{append_value, spec_render_value, FieldValue, SpecValue};
use crate::Level;

verus! {

/// The kind of record being emitted: entering a span, exiting a span, or a
/// point-in-time event.
#[derive(Clone, Debug)]
pub enum Type {
    EnterSpan,
    ExitSpan,
    Event,
}

impl Type {
    /// The tag this kind shows inside a message.
    pub open spec fn spec_tag(self) -> Seq<char> {
        match self {
            Type::EnterSpan => "START"@,
            Type::ExitSpan => "END"@,
            Type::Event => "EVENT"@,
        }
    }

    /// The tag as text: `START`, `END` or `EVENT`.
    pub fn tag(&self) -> (r: &'static str)
        ensures
            r@ == self.spec_tag(),
    {
        match self {
            Type::EnterSpan => "START",
            Type::ExitSpan => "END",
            Type::Event => "EVENT",
        }
    }
}

/// The immutable metadata of a span or event: its name, severity level,
/// target string and source location.
pub struct RecordMetadata {
    pub name: String,
    pub level: Level,
    pub target: String,
    pub file: Option<String>,
    pub line: Option<u32>,
}

/// Whether `k` is one of the seven required core fields of the Bunyan
/// format.
pub open spec fn is_required_key(k: Seq<char>) -> bool {
    ||| k == "v"@
    ||| k == "level"@
    ||| k == "name"@
    ||| k == "hostname"@
    ||| k == "pid"@
    ||| k == "time"@
    ||| k == "msg"@
}

fn required_key(k: &str) -> (r: bool)
    ensures
        r == is_required_key(k@),
{
    str_eq(k, "v") || str_eq(k, "level") || str_eq(k, "name") || str_eq(k, "hostname") || str_eq(
        k,
        "pid",
    ) || str_eq(k, "time") || str_eq(k, "msg")
}

/// Returned when a configuration asks to skip a required core field; it
/// names the offending field.
#[derive(Debug)]
pub struct SkipFieldError(String);

impl SkipFieldError {
    /// The name of the field that cannot be skipped.
    pub closed spec fn spec_key(&self) -> Seq<char> {
        self.0@
    }

    /// The offending field's name.
    pub fn key(&self) -> (r: &str)
        ensures
            r@ == self.spec_key(),
    {
        self.0.as_str()
    }

    /// The error text, naming the offending field.
    pub fn message(&self) -> (r: String)
        ensures
            r@ == self.spec_key() + " is a core field in the bunyan log format, it can't be skipped"@,
    {
        let mut out = self.0.clone();
        out.append(" is a core field in the bunyan log format, it can't be skipped");
        out
    }
}

/// The uppercase form of a character sequence.
pub uninterp spec fn upper_of(s: Seq<char>) -> Seq<char>;

/// Relies on str::to_uppercase: the uppercase mapping of the characters,
/// which depends on the characters alone.
#[verifier::external_body]
fn to_uppercase_string(s: &str) -> (r: String)
    ensures
        r@ == upper_of(s@),
{
    s.to_uppercase()
}

/// Relies on gethostname::gethostname and OsString::to_string_lossy: the
/// machine's hostname as text. The value depends on the machine, so nothing
/// is promised of it.
#[verifier::external_body]
fn resolve_hostname() -> String {
    gethostname::gethostname().to_string_lossy().into_owned()
}

/// The formatting side of the pipeline: its process-lifetime configuration,
/// fixed at construction, and the rendering of records against it.
pub struct BunyanFormattingLayer {
    name: String,
    pid: u32,
    hostname: Option<String>,
    bunyan_version: u8,
    default_fields: Vec<Field>,
    skip_fields: Vec<String>,
}

impl BunyanFormattingLayer {
    /// The log name attached to every record.
    pub closed spec fn spec_name(&self) -> Seq<char> {
        self.name@
    }

    /// The process id attached to every record.
    pub closed spec fn spec_pid(&self) -> u32 {
        self.pid
    }

    /// The hostname attached to every record, if one is configured.
    pub closed spec fn spec_hostname(&self) -> Option<Seq<char>> {
        match self.hostname {
            Some(h) => Some(h@),
            None => None,
        }
    }

    /// The schema version constant attached to every record.
    pub closed spec fn spec_version(&self) -> u8 {
        self.bunyan_version
    }

    /// The default fields merged into every record, in order.
    pub closed spec fn spec_defaults(&self) -> Seq<(Seq<char>, SpecValue)> {
        field_views(self.default_fields@)
    }

    /// The names of the fields omitted from every record.
    pub closed spec fn spec_skips(&self) -> Seq<Seq<char>> {
        self.skip_fields@.map_values(|s: String| s@)
    }

    /// Whether the name `k` is on the skip-list.
    pub open spec fn spec_skipped(&self, k: Seq<char>) -> bool {
        exists|i: int| 0 <= i < self.spec_skips().len() && self.spec_skips()[i] == k
    }

    /// The configuration invariant: no required core field is ever on the
    /// skip-list.
    pub open spec fn skips_wf(&self) -> bool {
        forall|i: int| 0 <= i < self.spec_skips().len() ==> !is_required_key(#[trigger] self.spec_skips()[i])
    }

    fn is_skipped(&self, k: &str) -> (r: bool)
        ensures
            r == self.spec_skipped(k@),
    {
        let n = self.skip_fields.len();
        let mut i: usize = 0;
        while i < n
            invariant
                i <= n,
                n == self.spec_skips().len(),
                n == self.skip_fields@.len(),
                forall|j: int| 0 <= j < i ==> self.spec_skips()[j] != k@,
            decreases n - i,
        {
            if str_eq(self.skip_fields[i].as_str(), k) {
                proof {
                    assert(self.spec_skips()[i as int] == k@);
                }
                return true;
            }
            i = i + 1;
        }
        false
    }

    /// A formatting layer with the given log name and process id, the
    /// machine's hostname resolved once now, the schema version constant,
    /// and no default fields.
    pub fn new(name: String, pid: u32) -> (r: Self)
        ensures
            r.spec_name() == name@,
            r.spec_pid() == pid,
            r.spec_hostname() is Some,
            r.spec_version() == 0,
            r.spec_defaults() == Seq::<(Seq<char>, SpecValue)>::empty(),
            r.spec_skips() == Seq::<Seq<char>>::empty(),
            r.skips_wf(),
    {
        Self::with_default_fields(name, pid, Vec::new())
    }

    /// As [`BunyanFormattingLayer::new`], with default fields merged into
    /// every record at lowest priority.
    pub fn with_default_fields(name: String, pid: u32, default_fields: Vec<Field>) -> (r: Self)
        ensures
            r.spec_name() == name@,
            r.spec_pid() == pid,
            r.spec_hostname() is Some,
            r.spec_version() == 0,
            r.spec_defaults() == field_views(default_fields@),
            r.spec_skips() == Seq::<Seq<char>>::empty(),
            r.skips_wf(),
    {
        let r = BunyanFormattingLayer {
            name,
            pid,
            hostname: Some(resolve_hostname()),
            bunyan_version: 0,
            default_fields,
            skip_fields: Vec::new(),
        };
        proof {
            assert(r.spec_skips() =~= Seq::<Seq<char>>::empty());
        }
        r
    }

    /// Replaces the hostname: an explicit override, or `None` to leave the
    /// field out of every record.
    pub fn with_hostname(self, hostname: Option<String>) -> (r: Self)
        ensures
            r.spec_hostname() == match hostname {
                Some(h) => Some(h@),
                None => None::<Seq<char>>,
            },
            r.spec_name() == self.spec_name(),
            r.spec_pid() == self.spec_pid(),
            r.spec_version() == self.spec_version(),
            r.spec_defaults() == self.spec_defaults(),
            r.spec_skips() == self.spec_skips(),
    {
        BunyanFormattingLayer { hostname, ..self }
    }

    /// Adds field names to omit from every record. Asking to skip a required
    /// core field fails with an error naming the first such field, and the
    /// configuration is discarded.
    pub fn skip_fields(self, fields: Vec<String>) -> (r: Result<Self, SkipFieldError>)
        ensures
            match r {
                Ok(l) => {
                    &&& forall|i: int|
                        0 <= i < fields@.len() ==> !is_required_key(#[trigger] fields@[i]@)
                    &&& l.spec_skips() == self.spec_skips() + fields@.map_values(|s: String| s@)
                    &&& l.spec_name() == self.spec_name()
                    &&& l.spec_pid() == self.spec_pid()
                    &&& l.spec_hostname() == self.spec_hostname()
                    &&& l.spec_version() == self.spec_version()
                    &&& l.spec_defaults() == self.spec_defaults()
                    &&& self.skips_wf() ==> l.skips_wf()
                },
                Err(e) => exists|i: int|
                    0 <= i < fields@.len() && is_required_key(#[trigger] fields@[i]@)
                        && e.spec_key() == fields@[i]@ && (forall|j: int|
                        0 <= j < i ==> !is_required_key(#[trigger] fields@[j]@)),
            },
    {
        let mut this = self;
        let n = fields.len();
        let mut i: usize = 0;
        while i < n
            invariant
                i <= n,
                n == fields@.len(),
                forall|j: int| 0 <= j < i ==> !is_required_key(#[trigger] fields@[j]@),
            decreases n - i,
        {
            if required_key(fields[i].as_str()) {
                let offending = fields[i].clone();
                proof {
                    assert(is_required_key(fields@[i as int]@));
                }
                return Err(SkipFieldError(offending));
            }
            i = i + 1;
        }
        let ghost skips0 = this.spec_skips();
        let mut j: usize = 0;
        while j < n
            invariant
                j <= n,
                n == fields@.len(),
                forall|q: int| 0 <= q < n ==> !is_required_key(#[trigger] fields@[q]@),
                this.spec_skips() == skips0 + fields@.map_values(|s: String| s@).take(j as int),
                this.spec_name() == self.spec_name(),
                this.spec_pid() == self.spec_pid(),
                this.spec_hostname() == self.spec_hostname(),
                this.spec_version() == self.spec_version(),
                this.spec_defaults() == self.spec_defaults(),
            decreases n - j,
        {
            let f = fields[j].clone();
            let ghost prev = this.spec_skips();
            let ghost prevv = this.skip_fields@;
            this.skip_fields.push(f);
            proof {
                let m = fields@.map_values(|s: String| s@);
                assert(f@ == m[j as int]);
                assert(prev == skips0 + fields@.map_values(|s: String| s@).take(j as int));
                assert(prev.len() == skips0.len() + j);
                assert(prevv.len() == prev.len());
                assert(prevv.len() == skips0.len() + j);
                assert forall|q: int|
                    0 <= q < this.spec_skips().len() implies this.spec_skips()[q] == (skips0
                    + m.take(j + 1 as int))[q] by {
                    if q < skips0.len() {
                        assert(this.skip_fields@[q] == prevv[q]);
                        assert(prev[q] == (skips0 + m.take(j as int))[q]);
                        assert((skips0 + m.take(j as int))[q] == skips0[q]);
                        assert((skips0 + m.take(j + 1 as int))[q] == skips0[q]);
                    } else if q < prevv.len() {
                        assert(this.skip_fields@[q] == prevv[q]);
                        assert(prev[q] == (skips0 + m.take(j as int))[q]);
                        assert((skips0 + m.take(j as int))[q] == m.take(j as int)[q
                            - skips0.len()]);
                        assert(m.take(j as int)[q - skips0.len()] == m[q - skips0.len()]);
                        assert((skips0 + m.take(j + 1 as int))[q] == m.take(j + 1 as int)[q
                            - skips0.len()]);
                        assert(m.take(j + 1 as int)[q - skips0.len()] == m[q - skips0.len()]);
                    } else {
                        assert(q == prevv.len());
                        assert(this.skip_fields@[q] == f);
                        assert((skips0 + m.take(j + 1 as int))[q] == m.take(j + 1 as int)[j as int]);
                        assert(m.take(j + 1 as int)[j as int] == m[j as int]);
                    }
                }
                assert(this.spec_skips() =~= skips0 + m.take(j + 1 as int));
            }
            j = j + 1;
        }
        proof {
            assert(fields@.map_values(|s: String| s@).take(n as int) =~= fields@.map_values(
                |s: String| s@,
            ));
            if self.skips_wf() {
                assert forall|i2: int|
                    0 <= i2 < this.spec_skips().len() implies !is_required_key(
                    #[trigger] this.spec_skips()[i2],
                ) by {
                    if i2 < skips0.len() {
                        assert(this.spec_skips()[i2] == skips0[i2]);
                    } else {
                        assert(this.spec_skips()[i2] == fields@.map_values(|s: String| s@)[i2
                            - skips0.len()]);
                    }
                }
            }
        }
        Ok(this)
    }
}

/// The timestamp text a record carries when the clock read `t`: the RFC 3339
/// rendering, which exists only for common-era years; otherwise the field is
/// left out, as for any timestamp the textual format cannot represent.
pub open spec fn spec_time_opt(t: UtcTimestamp) -> Option<Seq<char>> {
    if t.year >= 0 {
        Some(spec_rfc3339(t))
    } else {
        None
    }
}

/// The message of a span-transition record: the span's name in upper case,
/// bracketed with the transition tag.
pub open spec fn spec_span_message(name: Seq<char>, ty: Type) -> Seq<char> {
    seq!['['] + upper_of(name) + " - "@ + ty.spec_tag() + seq![']']
}

/// The message of an event record: the event's own `message` field when it
/// is a string, the event's target string otherwise; prefixed with the
/// enclosing span's bracketed tag when the event lies inside a span.
pub open spec fn spec_event_message(
    event_fields: Seq<(Seq<char>, SpecValue)>,
    target: Seq<char>,
    span_name: Option<Seq<char>>,
) -> Seq<char> {
    let base = match crate::storage::spec_lookup(event_fields, "message"@) {
        Some(SpecValue::Str(s)) => s,
        _ => target,
    };
    match span_name {
        Some(n) => spec_span_message(n, Type::Event) + seq![' '] + base,
        None => base,
    }
}

/// The JSON value of an optional source line: the number, or null.
pub open spec fn spec_opt_line(line: Option<u32>) -> SpecValue {
    match line {
        Some(l) => SpecValue::U64(l as u64),
        None => SpecValue::Null,
    }
}

/// The JSON value of an optional source file: the name, or null.
pub open spec fn spec_opt_file(file: Option<Seq<char>>) -> SpecValue {
    match file {
        Some(f) => SpecValue::Str(f),
        None => SpecValue::Null,
    }
}

/// The view of an optional string.
pub open spec fn spec_opt_view(s: Option<String>) -> Option<Seq<char>> {
    match s {
        Some(v) => Some(v@),
        None => None,
    }
}

impl BunyanFormattingLayer {
    /// The leading, unconditional part of every record: schema version, log
    /// name, message, numeric level, the hostname when one is configured,
    /// process id, and the timestamp when one could be rendered.
    pub open spec fn spec_core_entries(
        &self,
        msg: Seq<char>,
        lvl: Level,
        time: Option<Seq<char>>,
    ) -> Seq<(Seq<char>, SpecValue)> {
        seq![
            ("v"@, SpecValue::U64(self.spec_version() as u64)),
            ("name"@, SpecValue::Str(self.spec_name())),
            ("msg"@, SpecValue::Str(msg)),
            ("level"@, SpecValue::U64(lvl.spec_bunyan_level() as u64)),
        ] + (match self.spec_hostname() {
            Some(h) => seq![("hostname"@, SpecValue::Str(h))],
            None => Seq::<(Seq<char>, SpecValue)>::empty(),
        }) + seq![("pid"@, SpecValue::U64(self.spec_pid() as u64))] + (match time {
            Some(ts) => seq![("time"@, SpecValue::Str(ts))],
            None => Seq::<(Seq<char>, SpecValue)>::empty(),
        })
    }

    /// The debugging-aid entries: target string, source line and source
    /// file, each left out when its name is on the skip-list.
    pub open spec fn spec_meta_entries(
        &self,
        target: Seq<char>,
        line: Option<u32>,
        file: Option<Seq<char>>,
    ) -> Seq<(Seq<char>, SpecValue)> {
        (if !self.spec_skipped("target"@) {
            seq![("target"@, SpecValue::Str(target))]
        } else {
            Seq::<(Seq<char>, SpecValue)>::empty()
        }) + (if !self.spec_skipped("line"@) {
            seq![("line"@, spec_opt_line(line))]
        } else {
            Seq::<(Seq<char>, SpecValue)>::empty()
        }) + (if !self.spec_skipped("file"@) {
            seq![("file"@, spec_opt_file(file))]
        } else {
            Seq::<(Seq<char>, SpecValue)>::empty()
        })
    }

    /// Whether an extra field of name `k` is emitted: required core names
    /// and skip-listed names never are, and where the record's message was
    /// taken from the fields, the `message` field itself is not repeated.
    pub open spec fn spec_keeps(&self, k: Seq<char>, exclude_message: bool) -> bool {
        &&& !is_required_key(k)
        &&& !self.spec_skipped(k)
        &&& !(exclude_message && k == "message"@)
    }

    /// The extra fields that are emitted, in their given order.
    pub open spec fn spec_filtered(
        &self,
        fields: Seq<(Seq<char>, SpecValue)>,
        exclude_message: bool,
    ) -> Seq<(Seq<char>, SpecValue)>
        decreases fields.len(),
    {
        if fields.len() == 0 {
            fields
        } else {
            self.spec_filtered(fields.drop_last(), exclude_message) + (if self.spec_keeps(
                fields.last().0,
                exclude_message,
            ) {
                seq![fields.last()]
            } else {
                Seq::<(Seq<char>, SpecValue)>::empty()
            })
        }
    }

    /// Every entry of a span-transition record, in emission order: the core
    /// entries, the debugging aids, the default fields and the span's own
    /// fields, the latter two without required core names and all subject to
    /// the skip-list.
    pub open spec fn spec_span_entries(
        &self,
        meta: &RecordMetadata,
        span_fields: Seq<(Seq<char>, SpecValue)>,
        ty: Type,
        time: Option<Seq<char>>,
    ) -> Seq<(Seq<char>, SpecValue)> {
        self.spec_core_entries(spec_span_message(meta.name@, ty), meta.level, time)
            + self.spec_meta_entries(meta.target@, meta.line, spec_opt_view(meta.file))
            + self.spec_filtered(self.spec_defaults(), false) + self.spec_filtered(
            span_fields,
            false,
        )
    }

    /// Every entry of an event record, in emission order: the core entries,
    /// the debugging aids, the default fields and the event's own fields
    /// (both without the `message` field and required core names), then the
    /// enclosing span's fields if the event lies inside a span — all subject
    /// to the skip-list.
    pub open spec fn spec_event_entries(
        &self,
        meta: &RecordMetadata,
        event_fields: Seq<(Seq<char>, SpecValue)>,
        span: Option<(Seq<char>, Seq<(Seq<char>, SpecValue)>)>,
        time: Option<Seq<char>>,
    ) -> Seq<(Seq<char>, SpecValue)> {
        let span_name = match span {
            Some(sp) => Some(sp.0),
            None => None,
        };
        self.spec_core_entries(
            spec_event_message(event_fields, meta.target@, span_name),
            meta.level,
            time,
        ) + self.spec_meta_entries(meta.target@, meta.line, spec_opt_view(meta.file))
            + self.spec_filtered(self.spec_defaults(), true) + self.spec_filtered(
            event_fields,
            true,
        ) + (match span {
            Some(sp) => self.spec_filtered(sp.1, false),
            None => Seq::<(Seq<char>, SpecValue)>::empty(),
        })
    }
}

/// One rendered record entry: the escaped, quoted name, a colon, and the
/// value's JSON text.
pub open spec fn spec_render_entry(e: (Seq<char>, SpecValue)) -> Seq<char> {
    seq!['"'] + spec_escape(e.0) + seq!['"', ':'] + spec_render_value(e.1)
}

/// The rendered entries, separated by commas.
pub open spec fn spec_render_entries(entries: Seq<(Seq<char>, SpecValue)>) -> Seq<char>
    decreases entries.len(),
{
    if entries.len() == 0 {
        Seq::<char>::empty()
    } else if entries.len() == 1 {
        spec_render_entry(entries[0])
    } else {
        spec_render_entries(entries.drop_last()) + seq![','] + spec_render_entry(entries.last())
    }
}

/// One complete record line: a JSON object of the entries, in order,
/// terminated by a single newline.
pub open spec fn spec_render_record(entries: Seq<(Seq<char>, SpecValue)>) -> Seq<char> {
    seq!['{'] + spec_render_entries(entries) + seq!['}', '\n']
}

/// The bracketed span context shown in messages, for example
/// `[AN_INTERESTING_SPAN - START]`.
pub fn format_span_context(name: &str, ty: &Type) -> (r: String)
    ensures
        r@ == spec_span_message(name@, *ty),
{
    let mut out = String::new();
    push_char(&mut out, '[');
    let upper = to_uppercase_string(name);
    out.append(upper.as_str());
    out.append(" - ");
    out.append(ty.tag());
    push_char(&mut out, ']');
    proof {
        assert(out@ =~= spec_span_message(name@, *ty));
    }
    out
}

/// The message of an event record: the event's own `message` field when it
/// is a string, the target otherwise, prefixed with the enclosing span's
/// context when there is one.
pub fn format_event_message(
    event_fields: &JsonStorage,
    target: &str,
    span_name: Option<&str>,
) -> (r: String)
    ensures
        r@ == spec_event_message(
            event_fields@,
            target@,
            match span_name {
                Some(n) => Some(n@),
                None => None::<Seq<char>>,
            },
        ),
{
    let base: String = match event_fields.lookup("message") {
        Some(v) => match v {
            FieldValue::Str(s) => s.clone(),
            _ => target.to_owned(),
        },
        None => target.to_owned(),
    };
    match span_name {
        Some(n) => {
            let mut out = format_span_context(n, &Type::Event);
            push_char(&mut out, ' ');
            out.append(base.as_str());
            proof {
                assert(out@ =~= spec_event_message(event_fields@, target@, Some(n@)));
            }
            out
        },
        None => base,
    }
}

fn push_entry(entries: &mut Vec<Field>, name: &str, value: FieldValue)
    ensures
        field_views(final(entries)@) == field_views(old(entries)@).push((name@, value@)),
{
    let ghost prev = entries@;
    let ghost entry = (name@, value@);
    entries.push(Field { name: name.to_owned(), value });
    proof {
        assert forall|q: int|
            0 <= q < entries@.len() implies field_views(entries@)[q] == field_views(prev).push(
            entry,
        )[q] by {
            if q < prev.len() {
                assert(entries@[q] == prev[q]);
            }
        }
        assert(field_views(entries@) =~= field_views(prev).push(entry));
    }
}

impl BunyanFormattingLayer {
    fn push_core_entries(
        &self,
        entries: &mut Vec<Field>,
        msg: String,
        lvl: Level,
        time: Option<String>,
    )
        ensures
            field_views(final(entries)@) == field_views(old(entries)@) + self.spec_core_entries(
                msg@,
                lvl,
                spec_opt_view(time),
            ),
    {
        push_entry(entries, "v", FieldValue::U64(self.bunyan_version as u64));
        push_entry(entries, "name", FieldValue::Str(self.name.clone()));
        push_entry(entries, "msg", FieldValue::Str(msg));
        push_entry(entries, "level", FieldValue::U64(lvl.to_bunyan_level() as u64));
        match &self.hostname {
            Some(h) => push_entry(entries, "hostname", FieldValue::Str(h.clone())),
            None => {},
        }
        push_entry(entries, "pid", FieldValue::U64(self.pid as u64));
        match time {
            Some(ts) => push_entry(entries, "time", FieldValue::Str(ts)),
            None => {},
        }
        proof {
            assert(field_views(entries@) =~= field_views(old(entries)@) + self.spec_core_entries(
                msg@,
                lvl,
                spec_opt_view(time),
            ));
        }
    }

    fn push_meta_entries(&self, entries: &mut Vec<Field>, meta: &RecordMetadata)
        ensures
            field_views(final(entries)@) == field_views(old(entries)@) + self.spec_meta_entries(
                meta.target@,
                meta.line,
                spec_opt_view(meta.file),
            ),
    {
        if !self.is_skipped("target") {
            push_entry(entries, "target", FieldValue::Str(meta.target.clone()));
        }
        if !self.is_skipped("line") {
            let v = match meta.line {
                Some(l) => FieldValue::U64(l as u64),
                None => FieldValue::Null,
            };
            push_entry(entries, "line", v);
        }
        if !self.is_skipped("file") {
            let v = match &meta.file {
                Some(f) => FieldValue::Str(f.clone()),
                None => FieldValue::Null,
            };
            push_entry(entries, "file", v);
        }
        proof {
            assert(field_views(entries@) =~= field_views(old(entries)@) + self.spec_meta_entries(
                meta.target@,
                meta.line,
                spec_opt_view(meta.file),
            ));
        }
    }

    fn push_filtered(&self, entries: &mut Vec<Field>, fields: &Vec<Field>, exclude_message: bool)
        ensures
            field_views(final(entries)@) == field_views(old(entries)@) + self.spec_filtered(
                field_views(fields@),
                exclude_message,
            ),
    {
        let ghost base = field_views(entries@);
        let ghost fs = field_views(fields@);
        let n = fields.len();
        let mut i: usize = 0;
        proof {
            assert(fs.take(0) =~= Seq::<(Seq<char>, SpecValue)>::empty());
        }
        while i < n
            invariant
                i <= n,
                n == fields@.len(),
                n == fs.len(),
                fs == field_views(fields@),
                field_views(entries@) == base + self.spec_filtered(
                    fs.take(i as int),
                    exclude_message,
                ),
            decreases n - i,
        {
            let f = &fields[i];
            let keep = !required_key(f.name.as_str()) && !self.is_skipped(f.name.as_str()) && !(
            exclude_message && str_eq(f.name.as_str(), "message"));
            if keep {
                push_entry(entries, f.name.as_str(), f.value.clone());
            }
            proof {
                assert(fs[i as int] == f@);
                assert(keep == self.spec_keeps(fs[i as int].0, exclude_message));
                assert(fs.take(i + 1 as int).drop_last() =~= fs.take(i as int));
                assert(fs.take(i + 1 as int).last() == fs[i as int]);
                assert(field_views(entries@) =~= base + self.spec_filtered(
                    fs.take(i + 1 as int),
                    exclude_message,
                ));
            }
            i = i + 1;
        }
        proof {
            assert(fs.take(n as int) =~= fs);
        }
    }

    /// Serialises one span transition against this configuration, at the
    /// given clock reading, to one complete JSON line.
    pub fn serialize_span_at(
        &self,
        meta: &RecordMetadata,
        span_fields: &JsonStorage,
        ty: &Type,
        now: &UtcTimestamp,
    ) -> (r: String)
        requires
            now.wf(),
        ensures
            r@ == spec_render_record(
                self.spec_span_entries(meta, span_fields@, *ty, spec_time_opt(*now)),
            ),
    {
        let msg = format_span_context(meta.name.as_str(), ty);
        let time: Option<String> = if now.year >= 0 {
            Some(format_rfc3339_utc(now))
        } else {
            None
        };
        let ghost gt = spec_opt_view(time);
        proof {
            assert(gt == spec_time_opt(*now));
        }
        let mut entries: Vec<Field> = Vec::new();
        proof {
            assert(field_views(entries@) =~= Seq::<(Seq<char>, SpecValue)>::empty());
        }
        self.push_core_entries(&mut entries, msg, meta.level, time);
        self.push_meta_entries(&mut entries, meta);
        self.push_filtered(&mut entries, &self.default_fields, false);
        self.push_filtered(&mut entries, span_fields.values(), false);
        proof {
            assert(field_views(entries@) =~= self.spec_span_entries(
                meta,
                span_fields@,
                *ty,
                spec_time_opt(*now),
            ));
        }
        render_record(&entries)
    }

    /// Serialises one span transition to one complete JSON line, reading the
    /// clock once: the line is the rendering for whatever valid UTC time the
    /// clock gave.
    pub fn serialize_span(
        &self,
        meta: &RecordMetadata,
        span_fields: &JsonStorage,
        ty: &Type,
    ) -> (r: String)
        ensures
            exists|t: UtcTimestamp|
                t.wf() && r@ == spec_render_record(
                    #[trigger] self.spec_span_entries(meta, span_fields@, *ty, spec_time_opt(t)),
                ),
    {
        let now = now_utc_parts();
        let r = self.serialize_span_at(meta, span_fields, ty, &now);
        proof {
            assert(now.wf() && r@ == spec_render_record(
                self.spec_span_entries(meta, span_fields@, *ty, spec_time_opt(now)),
            ));
        }
        r
    }

    /// Serialises one event against this configuration, at the given clock
    /// reading, to one complete JSON line. `current_span` is the name and
    /// field store of the nearest enclosing span, if the event lies inside
    /// one.
    pub fn serialize_event_at(
        &self,
        meta: &RecordMetadata,
        event_fields: &JsonStorage,
        current_span: Option<(&str, &JsonStorage)>,
        now: &UtcTimestamp,
    ) -> (r: String)
        requires
            now.wf(),
        ensures
            r@ == spec_render_record(
                self.spec_event_entries(
                    meta,
                    event_fields@,
                    spec_span_opt(current_span),
                    spec_time_opt(*now),
                ),
            ),
    {
        let span_name: Option<&str> = match current_span {
            Some(p) => Some(p.0),
            None => None,
        };
        let msg = format_event_message(event_fields, meta.target.as_str(), span_name);
        let time: Option<String> = if now.year >= 0 {
            Some(format_rfc3339_utc(now))
        } else {
            None
        };
        let mut entries: Vec<Field> = Vec::new();
        proof {
            assert(field_views(entries@) =~= Seq::<(Seq<char>, SpecValue)>::empty());
        }
        self.push_core_entries(&mut entries, msg, meta.level, time);
        self.push_meta_entries(&mut entries, meta);
        self.push_filtered(&mut entries, &self.default_fields, true);
        self.push_filtered(&mut entries, event_fields.values(), true);
        match current_span {
            Some(p) => self.push_filtered(&mut entries, p.1.values(), false),
            None => {},
        }
        proof {
            assert(field_views(entries@) =~= self.spec_event_entries(
                meta,
                event_fields@,
                spec_span_opt(current_span),
                spec_time_opt(*now),
            ));
        }
        render_record(&entries)
    }

    /// Serialises one event to one complete JSON line, reading the clock
    /// once: the line is the rendering for whatever valid UTC time the clock
    /// gave.
    pub fn serialize_event(
        &self,
        meta: &RecordMetadata,
        event_fields: &JsonStorage,
        current_span: Option<(&str, &JsonStorage)>,
    ) -> (r: String)
        ensures
            exists|t: UtcTimestamp|
                t.wf() && r@ == spec_render_record(
                    #[trigger] self.spec_event_entries(
                        meta,
                        event_fields@,
                        spec_span_opt(current_span),
                        spec_time_opt(t),
                    ),
                ),
    {
        let now = now_utc_parts();
        let r = self.serialize_event_at(meta, event_fields, current_span, &now);
        proof {
            assert(now.wf() && r@ == spec_render_record(
                self.spec_event_entries(
                    meta,
                    event_fields@,
                    spec_span_opt(current_span),
                    spec_time_opt(now),
                ),
            ));
        }
        r
    }
}

/// None of the optional debug-aid names, the reserved elapsed-time name and
/// the event message name is a required core field.
proof fn lemma_key_literals()
    ensures
        !is_required_key("target"@),
        !is_required_key("line"@),
        !is_required_key("file"@),
        !is_required_key("elapsed_milliseconds"@),
        !is_required_key("message"@),
{
    broadcast use vstd::string::group_string_axioms;

    reveal_strlit("v");
    reveal_strlit("level");
    reveal_strlit("name");
    reveal_strlit("hostname");
    reveal_strlit("pid");
    reveal_strlit("time");
    reveal_strlit("msg");
    reveal_strlit("target");
    reveal_strlit("line");
    reveal_strlit("file");
    reveal_strlit("elapsed_milliseconds");
    reveal_strlit("message");
    assert("v"@.len() == 1);
    assert("level"@.len() == 5);
    assert("name"@.len() == 4);
    assert("hostname"@.len() == 8);
    assert("pid"@.len() == 3);
    assert("time"@.len() == 4);
    assert("msg"@.len() == 3);
    assert("target"@.len() == 6);
    assert("line"@.len() == 4);
    assert("file"@.len() == 4);
    assert("elapsed_milliseconds"@.len() == 20);
    assert("message"@.len() == 7);
    assert("line"@[0] == 'l' && "file"@[0] == 'f' && "name"@[0] == 'n' && "time"@[0] == 't');
}

/// Every emitted extra field passed the filter: its name is not a required
/// core name and not on the skip-list.
proof fn lemma_filtered_keys(
    l: &BunyanFormattingLayer,
    fields: Seq<(Seq<char>, SpecValue)>,
    ex: bool,
)
    ensures
        forall|i: int|
            0 <= i < l.spec_filtered(fields, ex).len() ==> l.spec_keeps(
                #[trigger] l.spec_filtered(fields, ex)[i].0,
                ex,
            ),
    decreases fields.len(),
{
    if fields.len() > 0 {
        lemma_filtered_keys(l, fields.drop_last(), ex);
        let t = l.spec_filtered(fields, ex);
        let front = l.spec_filtered(fields.drop_last(), ex);
        assert forall|i: int| 0 <= i < t.len() implies l.spec_keeps(#[trigger] t[i].0, ex) by {
            if i < front.len() {
                assert(t[i] == front[i]);
            } else {
                assert(t[i] == fields.last());
            }
        }
    }
}

/// A field that passes the filter is emitted unchanged.
proof fn lemma_filtered_contains(
    l: &BunyanFormattingLayer,
    fields: Seq<(Seq<char>, SpecValue)>,
    ex: bool,
    i: int,
)
    requires
        0 <= i < fields.len(),
        l.spec_keeps(fields[i].0, ex),
    ensures
        exists|j: int|
            0 <= j < l.spec_filtered(fields, ex).len() && #[trigger] l.spec_filtered(fields, ex)[j]
                == fields[i],
    decreases fields.len(),
{
    let t = l.spec_filtered(fields, ex);
    let front = l.spec_filtered(fields.drop_last(), ex);
    if i == fields.len() - 1 {
        assert(t[front.len() as int] == fields.last());
    } else {
        assert(fields.drop_last()[i] == fields[i]);
        lemma_filtered_contains(l, fields.drop_last(), ex, i);
        let j = choose|j: int| 0 <= j < front.len() && front[j] == fields.drop_last()[i];
        assert(t[j] == front[j]);
    }
}

impl BunyanFormattingLayer {
    /// Law: with a hostname configured, every span-transition record carries
    /// the seven required Bunyan fields as its first seven entries — schema
    /// version, the log name, a non-empty bracketed message, a level code
    /// among 10, 20, 30, 40 and 50, the hostname, the process id, and a
    /// timestamp that is a non-empty, structurally valid RFC 3339 date-time
    /// with zero UTC offset — and no later entry reuses a required name.
    pub proof fn lemma_span_record_required_fields(
        &self,
        meta: &RecordMetadata,
        span_fields: Seq<(Seq<char>, SpecValue)>,
        ty: Type,
        t: UtcTimestamp,
    )
        requires
            t.wf(),
            t.year >= 0,
            self.spec_hostname() is Some,
        ensures
            ({
                let es = self.spec_span_entries(meta, span_fields, ty, spec_time_opt(t));
                let lvl = meta.level.spec_bunyan_level();
                &&& es.len() >= 7
                &&& es[0] == ("v"@, SpecValue::U64(self.spec_version() as u64))
                &&& es[1] == ("name"@, SpecValue::Str(self.spec_name()))
                &&& es[2] == ("msg"@, SpecValue::Str(spec_span_message(meta.name@, ty)))
                &&& spec_span_message(meta.name@, ty).len() > 0
                &&& es[3] == ("level"@, SpecValue::U64(lvl as u64))
                &&& (lvl == 10 || lvl == 20 || lvl == 30 || lvl == 40 || lvl == 50)
                &&& es[4] == ("hostname"@, SpecValue::Str(self.spec_hostname()->Some_0))
                &&& es[5] == ("pid"@, SpecValue::U64(self.spec_pid() as u64))
                &&& es[6] == ("time"@, SpecValue::Str(spec_rfc3339(t)))
                &&& crate::clock::is_rfc3339_utc(spec_rfc3339(t))
                &&& spec_rfc3339(t).len() > 0
                &&& forall|i: int| 7 <= i < es.len() ==> !is_required_key(#[trigger] es[i].0)
            }),
    {
        let es = self.spec_span_entries(meta, span_fields, ty, spec_time_opt(t));
        let msg = spec_span_message(meta.name@, ty);
        let core = self.spec_core_entries(msg, meta.level, spec_time_opt(t));
        let metas = self.spec_meta_entries(meta.target@, meta.line, spec_opt_view(meta.file));
        let defs = self.spec_filtered(self.spec_defaults(), false);
        let spans = self.spec_filtered(span_fields, false);
        crate::clock::lemma_rfc3339_valid(t);
        lemma_key_literals();
        lemma_filtered_keys(self, self.spec_defaults(), false);
        lemma_filtered_keys(self, span_fields, false);
        assert(core.len() == 7);
        assert forall|i: int| 7 <= i < es.len() implies !is_required_key(#[trigger] es[i].0) by {
            if i < core.len() + metas.len() {
                assert(es[i] == metas[i - core.len()]);
                assert(metas[i - core.len()].0 == "target"@ || metas[i - core.len()].0 == "line"@
                    || metas[i - core.len()].0 == "file"@);
            } else if i < core.len() + metas.len() + defs.len() {
                assert(es[i] == defs[i - core.len() - metas.len()]);
            } else {
                assert(es[i] == spans[i - core.len() - metas.len() - defs.len()]);
            }
        }
    }

    /// Law: the same for event records: with a hostname configured, the
    /// seven required fields stand first, with the same values and validity,
    /// and no later entry reuses a required name.
    pub proof fn lemma_event_record_required_fields(
        &self,
        meta: &RecordMetadata,
        event_fields: Seq<(Seq<char>, SpecValue)>,
        span: Option<(Seq<char>, Seq<(Seq<char>, SpecValue)>)>,
        t: UtcTimestamp,
    )
        requires
            t.wf(),
            t.year >= 0,
            self.spec_hostname() is Some,
        ensures
            ({
                let es = self.spec_event_entries(meta, event_fields, span, spec_time_opt(t));
                let span_name = match span {
                    Some(sp) => Some(sp.0),
                    None => None,
                };
                let msg = spec_event_message(event_fields, meta.target@, span_name);
                let lvl = meta.level.spec_bunyan_level();
                &&& es.len() >= 7
                &&& es[0] == ("v"@, SpecValue::U64(self.spec_version() as u64))
                &&& es[1] == ("name"@, SpecValue::Str(self.spec_name()))
                &&& es[2] == ("msg"@, SpecValue::Str(msg))
                &&& es[3] == ("level"@, SpecValue::U64(lvl as u64))
                &&& (lvl == 10 || lvl == 20 || lvl == 30 || lvl == 40 || lvl == 50)
                &&& es[4] == ("hostname"@, SpecValue::Str(self.spec_hostname()->Some_0))
                &&& es[5] == ("pid"@, SpecValue::U64(self.spec_pid() as u64))
                &&& es[6] == ("time"@, SpecValue::Str(spec_rfc3339(t)))
                &&& crate::clock::is_rfc3339_utc(spec_rfc3339(t))
                &&& forall|i: int| 7 <= i < es.len() ==> !is_required_key(#[trigger] es[i].0)
            }),
    {
        let es = self.spec_event_entries(meta, event_fields, span, spec_time_opt(t));
        let span_name = match span {
            Some(sp) => Some(sp.0),
            None => None,
        };
        let msg = spec_event_message(event_fields, meta.target@, span_name);
        let core = self.spec_core_entries(msg, meta.level, spec_time_opt(t));
        let metas = self.spec_meta_entries(meta.target@, meta.line, spec_opt_view(meta.file));
        let defs = self.spec_filtered(self.spec_defaults(), true);
        let evs = self.spec_filtered(event_fields, true);
        let spans = match span {
            Some(sp) => self.spec_filtered(sp.1, false),
            None => Seq::<(Seq<char>, SpecValue)>::empty(),
        };
        crate::clock::lemma_rfc3339_valid(t);
        lemma_key_literals();
        lemma_filtered_keys(self, self.spec_defaults(), true);
        lemma_filtered_keys(self, event_fields, true);
        if span is Some {
            lemma_filtered_keys(self, span->Some_0.1, false);
        }
        assert(core.len() == 7);
        assert forall|i: int| 7 <= i < es.len() implies !is_required_key(#[trigger] es[i].0) by {
            if i < core.len() + metas.len() {
                assert(es[i] == metas[i - core.len()]);
                assert(metas[i - core.len()].0 == "target"@ || metas[i - core.len()].0 == "line"@
                    || metas[i - core.len()].0 == "file"@);
            } else if i < core.len() + metas.len() + defs.len() {
                assert(es[i] == defs[i - core.len() - metas.len()]);
            } else if i < core.len() + metas.len() + defs.len() + evs.len() {
                assert(es[i] == evs[i - core.len() - metas.len() - defs.len()]);
            } else {
                assert(es[i] == spans[i - core.len() - metas.len() - defs.len() - evs.len()]);
            }
        }
    }

    /// Law: a name on the skip-list never appears in a span-transition
    /// record, whether it came in as a debug aid, a default field or a span
    /// field. (The skip-list can never hold a required core name:
    /// `skip_fields` refuses it.)
    pub proof fn lemma_skipped_absent_from_span_record(
        &self,
        meta: &RecordMetadata,
        span_fields: Seq<(Seq<char>, SpecValue)>,
        ty: Type,
        time: Option<Seq<char>>,
        k: Seq<char>,
    )
        requires
            self.spec_skipped(k),
            self.skips_wf(),
        ensures
            !crate::storage::has_key(self.spec_span_entries(meta, span_fields, ty, time), k),
    {
        let msg = spec_span_message(meta.name@, ty);
        let core = self.spec_core_entries(msg, meta.level, time);
        let metas = self.spec_meta_entries(meta.target@, meta.line, spec_opt_view(meta.file));
        let defs = self.spec_filtered(self.spec_defaults(), false);
        let spans = self.spec_filtered(span_fields, false);
        self.lemma_skipped_not_in_parts(core, metas, k, meta, time, msg);
        lemma_filtered_keys(self, self.spec_defaults(), false);
        lemma_filtered_keys(self, span_fields, false);
        let es = self.spec_span_entries(meta, span_fields, ty, time);
        assert forall|i: int| 0 <= i < es.len() implies es[i].0 != k by {
            if i < core.len() {
                assert(es[i] == core[i]);
            } else if i < core.len() + metas.len() {
                assert(es[i] == metas[i - core.len()]);
            } else if i < core.len() + metas.len() + defs.len() {
                assert(es[i] == defs[i - core.len() - metas.len()]);
            } else {
                assert(es[i] == spans[i - core.len() - metas.len() - defs.len()]);
            }
        }
    }

    /// Law: a name on the skip-list never appears in an event record either.
    pub proof fn lemma_skipped_absent_from_event_record(
        &self,
        meta: &RecordMetadata,
        event_fields: Seq<(Seq<char>, SpecValue)>,
        span: Option<(Seq<char>, Seq<(Seq<char>, SpecValue)>)>,
        time: Option<Seq<char>>,
        k: Seq<char>,
    )
        requires
            self.spec_skipped(k),
            self.skips_wf(),
        ensures
            !crate::storage::has_key(self.spec_event_entries(meta, event_fields, span, time), k),
    {
        let span_name = match span {
            Some(sp) => Some(sp.0),
            None => None,
        };
        let msg = spec_event_message(event_fields, meta.target@, span_name);
        let core = self.spec_core_entries(msg, meta.level, time);
        let metas = self.spec_meta_entries(meta.target@, meta.line, spec_opt_view(meta.file));
        let defs = self.spec_filtered(self.spec_defaults(), true);
        let evs = self.spec_filtered(event_fields, true);
        let spans = match span {
            Some(sp) => self.spec_filtered(sp.1, false),
            None => Seq::<(Seq<char>, SpecValue)>::empty(),
        };
        self.lemma_skipped_not_in_parts(core, metas, k, meta, time, msg);
        lemma_filtered_keys(self, self.spec_defaults(), true);
        lemma_filtered_keys(self, event_fields, true);
        if span is Some {
            lemma_filtered_keys(self, span->Some_0.1, false);
        }
        let es = self.spec_event_entries(meta, event_fields, span, time);
        assert forall|i: int| 0 <= i < es.len() implies es[i].0 != k by {
            if i < core.len() {
                assert(es[i] == core[i]);
            } else if i < core.len() + metas.len() {
                assert(es[i] == metas[i - core.len()]);
            } else if i < core.len() + metas.len() + defs.len() {
                assert(es[i] == defs[i - core.len() - metas.len()]);
            } else if i < core.len() + metas.len() + defs.len() + evs.len() {
                assert(es[i] == evs[i - core.len() - metas.len() - defs.len()]);
            } else {
                assert(es[i] == spans[i - core.len() - metas.len() - defs.len() - evs.len()]);
            }
        }
    }

    /// A skipped name appears neither among the core entries (their names
    /// are required, and no required name can be skipped) nor among the
    /// debug aids (each is dropped when skipped).
    proof fn lemma_skipped_not_in_parts(
        &self,
        core: Seq<(Seq<char>, SpecValue)>,
        metas: Seq<(Seq<char>, SpecValue)>,
        k: Seq<char>,
        meta: &RecordMetadata,
        time: Option<Seq<char>>,
        msg: Seq<char>,
    )
        requires
            self.spec_skipped(k),
            self.skips_wf(),
            core == self.spec_core_entries(msg, meta.level, time),
            metas == self.spec_meta_entries(meta.target@, meta.line, spec_opt_view(meta.file)),
        ensures
            forall|i: int| 0 <= i < core.len() ==> #[trigger] core[i].0 != k,
            forall|i: int| 0 <= i < metas.len() ==> #[trigger] metas[i].0 != k,
    {
        assert(!is_required_key(k)) by {
            let w = choose|i: int|
                0 <= i < self.spec_skips().len() && self.spec_skips()[i] == k;
            assert(!is_required_key(self.spec_skips()[w]));
        }
        assert forall|i: int| 0 <= i < core.len() implies #[trigger] core[i].0 != k by {
            assert(is_required_key(core[i].0));
        }
        assert forall|i: int| 0 <= i < metas.len() implies #[trigger] metas[i].0 != k by {
            assert((metas[i].0 == "target"@ && !self.spec_skipped("target"@)) || (metas[i].0
                == "line"@ && !self.spec_skipped("line"@)) || (metas[i].0 == "file"@
                && !self.spec_skipped("file"@)));
        }
    }

    /// Law: a span's closing record carries the span's elapsed time: when
    /// the field store holds `elapsed_milliseconds` (as the close handler
    /// records it, an unsigned integer, zero for a span never entered) and
    /// the name is not skip-listed, the record's entries contain exactly
    /// that pair.
    pub proof fn lemma_close_record_has_elapsed(
        &self,
        meta: &RecordMetadata,
        span_fields: Seq<(Seq<char>, SpecValue)>,
        ty: Type,
        time: Option<Seq<char>>,
        ms: u64,
    )
        requires
            crate::storage::spec_lookup(span_fields, "elapsed_milliseconds"@) == Some(
                SpecValue::U64(ms),
            ),
            !self.spec_skipped("elapsed_milliseconds"@),
        ensures
            exists|i: int|
                0 <= i < self.spec_span_entries(meta, span_fields, ty, time).len()
                    && #[trigger] self.spec_span_entries(meta, span_fields, ty, time)[i] == (
                "elapsed_milliseconds"@,
                SpecValue::U64(ms),
                ),
    {
        let es = self.spec_span_entries(meta, span_fields, ty, time);
        let k = "elapsed_milliseconds"@;
        lemma_key_literals();
        crate::storage::lemma_lookup_is_entry(span_fields, k);
        let i = choose|i: int|
            0 <= i < span_fields.len() && span_fields[i] == (k, SpecValue::U64(ms));
        lemma_filtered_contains(self, span_fields, false, i);
        let spans = self.spec_filtered(span_fields, false);
        let j = choose|j: int| 0 <= j < spans.len() && spans[j] == span_fields[i];
        let msg = spec_span_message(meta.name@, ty);
        let core = self.spec_core_entries(msg, meta.level, time);
        let metas = self.spec_meta_entries(meta.target@, meta.line, spec_opt_view(meta.file));
        let defs = self.spec_filtered(self.spec_defaults(), false);
        assert(es[core.len() + metas.len() + defs.len() + j] == spans[j]);
    }
}

/// The name and entries of the enclosing span, as their views.
pub open spec fn spec_span_opt(sp: Option<(&str, &JsonStorage)>) -> Option<
    (Seq<char>, Seq<(Seq<char>, SpecValue)>),
> {
    match sp {
        Some(p) => Some((p.0@, p.1@)),
        None => None,
    }
}

/// Renders the entries as one complete JSON line.
fn render_record(entries: &Vec<Field>) -> (r: String)
    ensures
        r@ == spec_render_record(field_views(entries@)),
{
    let ghost es = field_views(entries@);
    let mut out = String::new();
    push_char(&mut out, '{');
    let n = entries.len();
    let mut i: usize = 0;
    while i < n
        invariant
            i <= n,
            n == entries@.len(),
            n == es.len(),
            es == field_views(entries@),
            out@ == seq!['{'] + spec_render_entries(es.take(i as int)),
        decreases n - i,
    {
        if i > 0 {
            push_char(&mut out, ',');
        }
        push_char(&mut out, '"');
        let f = &entries[i];
        crate::text::append_escaped(&mut out, f.name.as_str());
        push_char(&mut out, '"');
        push_char(&mut out, ':');
        append_value(&mut out, &f.value);
        proof {
            assert(es.take(i + 1 as int).drop_last() =~= es.take(i as int));
            assert(es.take(i + 1 as int).last() == es[i as int]);
            assert(es[i as int] == f@);
            assert(out@ =~= seq!['{'] + spec_render_entries(es.take(i + 1 as int)));
        }
        i = i + 1;
    }
    proof {
        assert(es.take(n as int) =~= es);
    }
    push_char(&mut out, '}');
    push_char(&mut out, '\n');
    proof {
        assert(out@ =~= spec_render_record(es));
    }
    out
}

} // verus!
