//! The settings of a tracker.
use crate::error::{Error, ErrorView};
use crate::json::{Json, JsonView};
use crate::style::{
    line_of, new_line, no_lines, plain, push_line, push_lines, toned, Span, SpanView, Tone,
};
use crate::text::{
    decimal_reads_back, 
    concat, decimal, decimal_text, parse_unsigned, parsed_unsigned, same_text, split_char, split_on,
};
use vstd::prelude::*;

verus! {

/// How the tracker works with git.
#[derive(Clone, Debug)]
pub struct GitConfig {
    pub auto_stage: bool,
    pub sync_branch: Option<String>,
}

/// How things are shown.
#[derive(Clone, Debug)]
pub struct DisplayConfig {
    pub colors: bool,
    pub date_format: String,
    pub show_count: bool,
    pub max_title_length: usize,
}

#[derive(Clone, Debug)]
pub struct Config {
    pub prefix: String,
    pub default_priority: u8,
    pub default_type: String,
    pub auto_sync: bool,
    pub sync_message_template: String,
    pub show_closed: bool,
    pub editor: Option<String>,
    pub git: GitConfig,
    pub display: DisplayConfig,
}

pub struct ConfigView {
    pub prefix: Seq<char>,
    pub default_priority: u8,
    pub default_type: Seq<char>,
    pub auto_sync: bool,
    pub sync_message_template: Seq<char>,
    pub show_closed: bool,
    pub editor: Option<Seq<char>>,
    pub auto_stage: bool,
    pub sync_branch: Option<Seq<char>>,
    pub colors: bool,
    pub date_format: Seq<char>,
    pub show_count: bool,
    pub max_title_length: usize,
}

impl View for Config {
    type V = ConfigView;

    open spec fn view(&self) -> ConfigView {
        ConfigView {
            prefix: self.prefix@,
            default_priority: self.default_priority,
            default_type: self.default_type@,
            auto_sync: self.auto_sync,
            sync_message_template: self.sync_message_template@,
            show_closed: self.show_closed,
            editor: self.editor.deep_view(),
            auto_stage: self.git.auto_stage,
            sync_branch: self.git.sync_branch.deep_view(),
            colors: self.display.colors,
            date_format: self.display.date_format@,
            show_count: self.display.show_count,
            max_title_length: self.display.max_title_length,
        }
    }
}

impl Default for Config {
    fn default() -> (r: Config)
        ensures
            r@ == default_config(),
    {
        Config {
            prefix: "trx".to_owned(),
            default_priority: 2,
            default_type: "task".to_owned(),
            auto_sync: false,
            sync_message_template: "trx: {action} {id}".to_owned(),
            show_closed: false,
            editor: None,
            git: GitConfig { auto_stage: false, sync_branch: None },
            display: DisplayConfig {
                colors: true,
                date_format: "%Y-%m-%d %H:%M".to_owned(),
                show_count: true,
                max_title_length: 80,
            },
        }
    }
}

/// The settings where none is made.
pub open spec fn default_config() -> ConfigView {
    ConfigView {
        prefix: "trx"@,
        default_priority: 2,
        default_type: "task"@,
        auto_sync: false,
        sync_message_template: "trx: {action} {id}"@,
        show_closed: false,
        editor: None,
        auto_stage: false,
        sync_branch: None,
        colors: true,
        date_format: "%Y-%m-%d %H:%M"@,
        show_count: true,
        max_title_length: 80,
    }
}

// ------------------------------------------------------------------------ setting

pub open spec fn parsed_bool(s: Seq<char>) -> Option<bool> {
    if s == "true"@ {
        Some(true)
    } else if s == "false"@ {
        Some(false)
    } else {
        None
    }
}

fn parse_bool(s: &str) -> (r: Option<bool>)
    ensures
        r == parsed_bool(s@),
{
    proof {
        reveal_strlit("true");
        reveal_strlit("false");
        assert("true"@.len() != "false"@.len());
    }
    if same_text(s, "true") {
        Some(true)
    } else if same_text(s, "false") {
        Some(false)
    } else {
        None
    }
}

pub open spec fn bad_flag(value: Seq<char>) -> ErrorView {
    ErrorView::Other("Invalid boolean value: "@ + value)
}

fn read_flag(value: &str) -> (r: Result<bool, Error>)
    ensures
        match parsed_bool(value@) {
            Some(b) => r == Ok::<bool, Error>(b),
            None => r is Err && r->Err_0@ == bad_flag(value@),
        },
{
    match parse_bool(value) {
        Some(b) => Ok(b),
        None => Err(Error::Other(concat("Invalid boolean value: ", value))),
    }
}

/// A flag that is set, or why not.
pub open spec fn flag_set(
    value: Seq<char>,
    with: spec_fn(bool) -> ConfigView,
) -> Result<ConfigView, ErrorView> {
    match parsed_bool(value) {
        Some(b) => Ok(with(b)),
        None => Err(bad_flag(value)),
    }
}

/// The settings with one of them changed, or why it cannot be.
pub open spec fn with_setting(c: ConfigView, key: Seq<char>, value: Seq<char>) -> Result<
    ConfigView,
    ErrorView,
> {
    if key == "prefix"@ {
        Ok(ConfigView { prefix: value, ..c })
    } else if key == "default_priority"@ {
        match parsed_unsigned(value, u8::MAX as nat) {
            Some(n) => Ok(ConfigView { default_priority: n as u8, ..c }),
            None => Err(ErrorView::Other("Invalid priority value: "@ + value)),
        }
    } else if key == "default_type"@ {
        Ok(ConfigView { default_type: value, ..c })
    } else if key == "auto_sync"@ {
        flag_set(value, |b: bool| ConfigView { auto_sync: b, ..c })
    } else if key == "sync_message_template"@ {
        Ok(ConfigView { sync_message_template: value, ..c })
    } else if key == "show_closed"@ {
        flag_set(value, |b: bool| ConfigView { show_closed: b, ..c })
    } else if key == "editor"@ {
        Ok(ConfigView { editor: Some(value), ..c })
    } else if key == "git.auto_stage"@ {
        flag_set(value, |b: bool| ConfigView { auto_stage: b, ..c })
    } else if key == "git.sync_branch"@ {
        Ok(ConfigView { sync_branch: Some(value), ..c })
    } else if key == "display.colors"@ {
        flag_set(value, |b: bool| ConfigView { colors: b, ..c })
    } else if key == "display.date_format"@ {
        Ok(ConfigView { date_format: value, ..c })
    } else if key == "display.show_count"@ {
        flag_set(value, |b: bool| ConfigView { show_count: b, ..c })
    } else if key == "display.max_title_length"@ {
        match parsed_unsigned(value, usize::MAX as nat) {
            Some(n) => Ok(ConfigView { max_title_length: n as usize, ..c }),
            None => Err(ErrorView::Other("Invalid integer value: "@ + value)),
        }
    } else {
        Err(ErrorView::Other("Unknown config key: "@ + key))
    }
}

impl Config {
    /// Changes one setting. Where that cannot be done, nothing is changed.
    pub fn config_set(&mut self, key: &str, value: &str) -> (r: Result<(), Error>)
        ensures
            match with_setting(old(self)@, key@, value@) {
                Ok(c) => r is Ok && final(self)@ == c,
                Err(e) => r is Err && r->Err_0@ == e && final(self)@ == old(self)@,
            },
    {
        if same_text(key, "prefix") {
            self.prefix = value.to_owned();
        } else if same_text(key, "default_priority") {
            match parse_unsigned(value, 255) {
                Some(n) => {
                    self.default_priority = n as u8;
                },
                None => return Err(Error::Other(concat("Invalid priority value: ", value))),
            }
        } else if same_text(key, "default_type") {
            self.default_type = value.to_owned();
        } else if same_text(key, "auto_sync") {
            match read_flag(value) {
                Ok(b) => self.auto_sync = b,
                Err(e) => return Err(e),
            }
        } else if same_text(key, "sync_message_template") {
            self.sync_message_template = value.to_owned();
        } else if same_text(key, "show_closed") {
            match read_flag(value) {
                Ok(b) => self.show_closed = b,
                Err(e) => return Err(e),
            }
        } else if same_text(key, "editor") {
            self.editor = Some(value.to_owned());
        } else if same_text(key, "git.auto_stage") {
            match read_flag(value) {
                Ok(b) => self.git.auto_stage = b,
                Err(e) => return Err(e),
            }
        } else if same_text(key, "git.sync_branch") {
            self.git.sync_branch = Some(value.to_owned());
        } else if same_text(key, "display.colors") {
            match read_flag(value) {
                Ok(b) => self.display.colors = b,
                Err(e) => return Err(e),
            }
        } else if same_text(key, "display.date_format") {
            self.display.date_format = value.to_owned();
        } else if same_text(key, "display.show_count") {
            match read_flag(value) {
                Ok(b) => self.display.show_count = b,
                Err(e) => return Err(e),
            }
        } else if same_text(key, "display.max_title_length") {
            match parse_unsigned(value, usize::MAX as u64) {
                Some(n) => {
                    self.display.max_title_length = n as usize;
                },
                None => return Err(Error::Other(concat("Invalid integer value: ", value))),
            }
        } else {
            return Err(Error::Other(concat("Unknown config key: ", key)));
        }
        Ok(())
    }
}

// ------------------------------------------------------------------------ showing

pub open spec fn flag_text(b: bool) -> Seq<char> {
    if b {
        "true"@
    } else {
        "false"@
    }
}

fn text_of_flag(b: bool) -> (r: &'static str)
    ensures
        r@ == flag_text(b),
{
    if b {
        "true"
    } else {
        "false"
    }
}

pub open spec fn quoted_line(head: Seq<char>, value: Seq<char>) -> Seq<SpanView> {
    seq![plain(head + value + "\""@)]
}

fn make_quoted(head: &str, value: &str) -> (r: Vec<Span>)
    ensures
        r.deep_view() == quoted_line(head@, value@),
{
    let mut t = concat(head, value);
    t.append("\"");
    line_of(Tone::Plain, &t)
}

pub open spec fn value_line(head: Seq<char>, value: Seq<char>) -> Seq<SpanView> {
    seq![plain(head + value)]
}

fn make_value(head: &str, value: &str) -> (r: Vec<Span>)
    ensures
        r.deep_view() == value_line(head@, value@),
{
    line_of(Tone::Plain, &concat(head, value))
}

/// A line for a setting that can be missing.
pub open spec fn optional_line(head: Seq<char>, value: Option<Seq<char>>) -> Seq<Seq<SpanView>> {
    match value {
        Some(v) => seq![quoted_line(head, v)],
        None => seq![],
    }
}

fn make_optional(head: &str, value: &Option<String>) -> (r: Vec<Vec<Span>>)
    ensures
        r.deep_view() == optional_line(head@, value.deep_view()),
{
    let mut r = no_lines();
    match value {
        Some(v) => push_line(&mut r, make_quoted(head, v)),
        None => {},
    }
    assert(r.deep_view() =~= optional_line(head@, value.deep_view()));
    r
}

/// The settings outside any section.
pub open spec fn main_settings(c: ConfigView) -> Seq<Seq<SpanView>> {
    seq![
        seq![toned(Tone::Bold, "Current configuration:"@)],
        seq![],
        quoted_line("prefix = \""@, c.prefix),
        value_line("default_priority = "@, decimal(c.default_priority as nat)),
        quoted_line("default_type = \""@, c.default_type),
        value_line("auto_sync = "@, flag_text(c.auto_sync)),
        quoted_line("sync_message_template = \""@, c.sync_message_template),
        value_line("show_closed = "@, flag_text(c.show_closed)),
    ] + optional_line("editor = \""@, c.editor)
}

pub open spec fn git_settings(c: ConfigView) -> Seq<Seq<SpanView>> {
    seq![seq![], seq![plain("[git]"@)], value_line("auto_stage = "@, flag_text(c.auto_stage))]
        + optional_line("sync_branch = \""@, c.sync_branch)
}

pub open spec fn display_settings(c: ConfigView) -> Seq<Seq<SpanView>> {
    seq![
        seq![],
        seq![plain("[display]"@)],
        value_line("colors = "@, flag_text(c.colors)),
        quoted_line("date_format = \""@, c.date_format),
        value_line("show_count = "@, flag_text(c.show_count)),
        value_line("max_title_length = "@, decimal(c.max_title_length as nat)),
    ]
}

/// The settings as they are shown.
pub open spec fn config_lines(c: ConfigView) -> Seq<Seq<SpanView>> {
    main_settings(c) + git_settings(c) + display_settings(c)
}

impl Config {
    fn show_main(&self) -> (r: Vec<Vec<Span>>)
        ensures
            r.deep_view() == main_settings(self@),
    {
        let mut r = no_lines();
        push_line(&mut r, line_of(Tone::Bold, "Current configuration:"));
        push_line(&mut r, new_line());
        push_line(&mut r, make_quoted("prefix = \"", &self.prefix));
        push_line(
            &mut r,
            make_value("default_priority = ", &decimal_text(self.default_priority as u64)),
        );
        push_line(&mut r, make_quoted("default_type = \"", &self.default_type));
        push_line(&mut r, make_value("auto_sync = ", text_of_flag(self.auto_sync)));
        push_line(&mut r, make_quoted("sync_message_template = \"", &self.sync_message_template));
        push_line(&mut r, make_value("show_closed = ", text_of_flag(self.show_closed)));
        push_lines(&mut r, make_optional("editor = \"", &self.editor));
        assert(r.deep_view() =~= main_settings(self@));
        r
    }

    fn show_git(&self) -> (r: Vec<Vec<Span>>)
        ensures
            r.deep_view() == git_settings(self@),
    {
        let mut r = no_lines();
        push_line(&mut r, new_line());
        push_line(&mut r, line_of(Tone::Plain, "[git]"));
        push_line(&mut r, make_value("auto_stage = ", text_of_flag(self.git.auto_stage)));
        push_lines(&mut r, make_optional("sync_branch = \"", &self.git.sync_branch));
        assert(r.deep_view() =~= git_settings(self@));
        r
    }

    fn show_display(&self) -> (r: Vec<Vec<Span>>)
        ensures
            r.deep_view() == display_settings(self@),
    {
        let mut r = no_lines();
        push_line(&mut r, new_line());
        push_line(&mut r, line_of(Tone::Plain, "[display]"));
        push_line(&mut r, make_value("colors = ", text_of_flag(self.display.colors)));
        push_line(&mut r, make_quoted("date_format = \"", &self.display.date_format));
        push_line(&mut r, make_value("show_count = ", text_of_flag(self.display.show_count)));
        push_line(
            &mut r,
            make_value(
                "max_title_length = ",
                &decimal_text(self.display.max_title_length as u64),
            ),
        );
        assert(r.deep_view() =~= display_settings(self@));
        r
    }

    /// The settings as they are shown.
    pub fn config_show(&self) -> (r: Vec<Vec<Span>>)
        ensures
            r.deep_view() == config_lines(self@),
    {
        let mut r = self.show_main();
        push_lines(&mut r, self.show_git());
        push_lines(&mut r, self.show_display());
        r
    }
}

// ------------------------------------------------------------------------ looking up

/// The value below a value, each part of the path a member of what stands before it.
pub open spec fn at_path(value: JsonView, parts: Seq<Seq<char>>) -> Option<JsonView>
    decreases parts.len(),
{
    if parts.len() == 0 {
        Some(value)
    } else {
        match value.member(parts[0]) {
            Some(v) => at_path(v, parts.drop_first()),
            None => None,
        }
    }
}

/// The setting with a name such as `display.colors`.
pub fn config_get<'a>(config: &'a Json, key: &str) -> (r: Result<&'a Json, Error>)
    ensures
        match at_path(config@, split_on(key@, '.')) {
            Some(v) => r is Ok && r->Ok_0@ == v,
            None => r is Err && r->Err_0@ == ErrorView::Other("Config key not found: "@ + key@),
        },
{
    let parts = split_char(key, '.');
    let ghost d = parts.deep_view();
    let mut value = config;
    let mut i: usize = 0;
    assert(d.skip(0) =~= d);
    while i < parts.len()
        invariant
            i <= parts.len(),
            d == parts.deep_view(),
            d == split_on(key@, '.'),
            at_path(config@, d) == at_path(value@, d.skip(i as int)),
        decreases parts.len() - i,
    {
        assert(d.skip(i as int)[0] == parts@[i as int]@);
        assert(d.skip(i as int).drop_first() =~= d.skip(i + 1));
        match value.get(&parts[i]) {
            Some(v) => {
                value = v;
            },
            None => {
                return Err(Error::Other(concat("Config key not found: ", key)));
            },
        }
        i += 1;
    }
    Ok(value)
}

/// A value that has no members as it is shown; nothing for one that has.
pub open spec fn scalar_text(value: JsonView) -> Option<Seq<char>> {
    match value {
        JsonView::Str(s) => Some(s),
        JsonView::Bool(b) => Some(flag_text(b)),
        JsonView::UInt(n) => Some(decimal(n as nat)),
        JsonView::NegInt(n) => Some(
            if n < 0 {
                "-"@ + decimal((-n) as nat)
            } else {
                decimal(n as nat)
            },
        ),
        JsonView::Real(s) => Some(s),
        JsonView::Null => Some("null"@),
        _ => None,
    }
}

pub fn plain_value(value: &Json) -> (r: Option<String>)
    ensures
        r.deep_view() == scalar_text(value@),
{
    match value {
        Json::Str(s) => Some(s.clone()),
        Json::Bool(b) => Some(text_of_flag(*b).to_owned()),
        Json::UInt(n) => Some(decimal_text(*n)),
        Json::NegInt(n) => Some(
            if *n < 0 {
                let m: u64 = (-(*n as i128)) as u64;
                concat("-", &decimal_text(m))
            } else {
                decimal_text(*n as u64)
            },
        ),
        Json::Real(s) => Some(s.clone()),
        Json::Null => Some("null".to_owned()),
        _ => None,
    }
}

/// Law: to make a setting again changes nothing more.
pub proof fn setting_twice_is_setting_once(c: ConfigView, key: Seq<char>, value: Seq<char>)
    ensures
        match with_setting(c, key, value) {
            Ok(d) => with_setting(d, key, value) == Ok::<ConfigView, ErrorView>(d),
            Err(e) => true,
        },
{
}

/// Setting a value changes the setting that is named, to that value, and no other; a number is
/// set from its digits and a flag from `true` or `false`.
#[verifier::spinoff_prover]
#[verifier::rlimit(40)]
pub proof fn settings_are_what_they_are_set_to(c: ConfigView, key: Seq<char>, value: Seq<char>)
    requires
        with_setting(c, key, value) is Ok,
    ensures
        ({
            let d = with_setting(c, key, value)->Ok_0;
            &&& key != "prefix"@ ==> d.prefix == c.prefix
            &&& key == "prefix"@ ==> d.prefix == value
            &&& key != "default_priority"@ ==> d.default_priority == c.default_priority
            &&& key == "default_priority"@ ==> forall|n: nat| value == #[trigger] decimal(n) ==> d.default_priority == n
            &&& key != "default_type"@ ==> d.default_type == c.default_type
            &&& key == "default_type"@ ==> d.default_type == value
            &&& key != "auto_sync"@ ==> d.auto_sync == c.auto_sync
            &&& key == "auto_sync"@ ==> value == (if d.auto_sync {
                "true"@
            } else {
                "false"@
            })
            &&& key != "sync_message_template"@ ==> d.sync_message_template == c.sync_message_template
            &&& key == "sync_message_template"@ ==> d.sync_message_template == value
            &&& key != "show_closed"@ ==> d.show_closed == c.show_closed
            &&& key == "show_closed"@ ==> value == (if d.show_closed {
                "true"@
            } else {
                "false"@
            })
            &&& key != "editor"@ ==> d.editor == c.editor
            &&& key == "editor"@ ==> d.editor == Some(value)
            &&& key != "git.auto_stage"@ ==> d.auto_stage == c.auto_stage
            &&& key == "git.auto_stage"@ ==> value == (if d.auto_stage {
                "true"@
            } else {
                "false"@
            })
            &&& key != "git.sync_branch"@ ==> d.sync_branch == c.sync_branch
            &&& key == "git.sync_branch"@ ==> d.sync_branch == Some(value)
            &&& key != "display.colors"@ ==> d.colors == c.colors
            &&& key == "display.colors"@ ==> value == (if d.colors {
                "true"@
            } else {
                "false"@
            })
            &&& key != "display.date_format"@ ==> d.date_format == c.date_format
            &&& key == "display.date_format"@ ==> d.date_format == value
            &&& key != "display.show_count"@ ==> d.show_count == c.show_count
            &&& key == "display.show_count"@ ==> value == (if d.show_count {
                "true"@
            } else {
                "false"@
            })
            &&& key != "display.max_title_length"@ ==> d.max_title_length == c.max_title_length
            &&& key == "display.max_title_length"@ ==> forall|n: nat| value == #[trigger] decimal(n) ==> d.max_title_length == n
        }),
{
    reveal_strlit("prefix");
    reveal_strlit("default_priority");
    reveal_strlit("default_type");
    reveal_strlit("auto_sync");
    reveal_strlit("sync_message_template");
    reveal_strlit("show_closed");
    reveal_strlit("editor");
    reveal_strlit("git.auto_stage");
    reveal_strlit("git.sync_branch");
    reveal_strlit("display.colors");
    reveal_strlit("display.date_format");
    reveal_strlit("display.show_count");
    reveal_strlit("display.max_title_length");
    assert("prefix"@.len() == 6 && "default_priority"@.len() == 16 && "default_type"@.len() == 12 && "auto_sync"@.len() == 9 && "sync_message_template"@.len() == 21 && "show_closed"@.len() == 11 && "editor"@.len() == 6 && "git.auto_stage"@.len() == 14 && "git.sync_branch"@.len() == 15 && "display.colors"@.len() == 14 && "display.date_format"@.len() == 19 && "display.show_count"@.len() == 18 && "display.max_title_length"@.len() == 24);
    assert("prefix"@[0] == 'p' && "editor"@[0] == 'e');
    assert("git.auto_stage"@[0] == 'g' && "display.colors"@[0] == 'd');
    if key == "default_priority"@ || key == "display.max_title_length"@ {
        assert forall|n: nat| value == #[trigger] decimal(n) implies (key == "default_priority"@
            ==> with_setting(c, key, value)->Ok_0.default_priority == n) && (key
            == "display.max_title_length"@ ==> with_setting(c, key, value)->Ok_0.max_title_length
            == n) by {
            lemma_read_number(n, u8::MAX as nat);
            lemma_read_number(n, usize::MAX as nat);
        }
    }
}

proof fn lemma_read_number(n: nat, max: nat)
    ensures
        parsed_unsigned(decimal(n), max) matches Some(m) ==> m == n,
{
    if n <= max {
        decimal_reads_back(n, max);
    } else {
        crate::text::lemma_decimal_value(n);
    }
}

/// A setting is refused only for a name that there is not, or a value that is no number or no
/// flag where one is asked for.
pub proof fn settings_are_refused_for_unknown_names(
    c: ConfigView,
    key: Seq<char>,
    value: Seq<char>,
)
    ensures
        with_setting(c, key, value) is Err <==> {
            ||| (key != "prefix"@ && key != "default_priority"@ && key != "default_type"@ && key != "auto_sync"@ && key != "sync_message_template"@ && key != "show_closed"@ && key != "editor"@ && key != "git.auto_stage"@ && key != "git.sync_branch"@ && key != "display.colors"@ && key != "display.date_format"@ && key != "display.show_count"@ && key != "display.max_title_length"@)
            ||| (key == "default_priority"@ && parsed_unsigned(value, 255) is None)
            ||| (key == "display.max_title_length"@ && parsed_unsigned(value, usize::MAX as nat)
                is None)
            ||| ((key == "auto_sync"@ || key == "show_closed"@ || key == "git.auto_stage"@ || key
                == "display.colors"@ || key == "display.show_count"@) && value != "true"@ && value
                != "false"@)
        },
{
    reveal_strlit("prefix");
    reveal_strlit("default_priority");
    reveal_strlit("default_type");
    reveal_strlit("auto_sync");
    reveal_strlit("sync_message_template");
    reveal_strlit("show_closed");
    reveal_strlit("editor");
    reveal_strlit("git.auto_stage");
    reveal_strlit("git.sync_branch");
    reveal_strlit("display.colors");
    reveal_strlit("display.date_format");
    reveal_strlit("display.show_count");
    reveal_strlit("display.max_title_length");
    assert("prefix"@.len() == 6 && "default_priority"@.len() == 16 && "default_type"@.len() == 12 && "auto_sync"@.len() == 9 && "sync_message_template"@.len() == 21 && "show_closed"@.len() == 11 && "editor"@.len() == 6 && "git.auto_stage"@.len() == 14 && "git.sync_branch"@.len() == 15 && "display.colors"@.len() == 14 && "display.date_format"@.len() == 19 && "display.show_count"@.len() == 18 && "display.max_title_length"@.len() == 24);
    assert("prefix"@[0] == 'p' && "editor"@[0] == 'e');
    assert("git.auto_stage"@[0] == 'g' && "display.colors"@[0] == 'd');
}

/// One of the lines is this text.
pub open spec fn config_shows(lines: Seq<Seq<SpanView>>, text: Seq<char>) -> bool {
    exists|k: int|
        0 <= k < lines.len() && (#[trigger] lines[k]).len() == 1 && lines[k][0].text == text
}

/// Every setting is shown with its name and value, and one that is unset is not.
pub proof fn every_setting_is_shown(c: ConfigView)
    ensures
        config_shows(config_lines(c), "prefix = \""@ + c.prefix + "\""@),
        config_shows(config_lines(c), "default_priority = "@ + decimal(c.default_priority as nat)),
        config_shows(config_lines(c), "default_type = \""@ + c.default_type + "\""@),
        config_shows(config_lines(c), "auto_sync = "@ + (if c.auto_sync {
            "true"@
        } else {
            "false"@
        })),
        config_shows(config_lines(c), "sync_message_template = \""@ + c.sync_message_template + "\""@),
        config_shows(config_lines(c), "show_closed = "@ + (if c.show_closed {
            "true"@
        } else {
            "false"@
        })),
        c.editor matches Some(e) ==> config_shows(config_lines(c), "editor = \""@ + e + "\""@),
        config_shows(config_lines(c), "auto_stage = "@ + (if c.auto_stage {
            "true"@
        } else {
            "false"@
        })),
        c.sync_branch matches Some(b) ==> config_shows(config_lines(c), "sync_branch = \""@ + b + "\""@),
        config_shows(config_lines(c), "colors = "@ + (if c.colors {
            "true"@
        } else {
            "false"@
        })),
        config_shows(config_lines(c), "date_format = \""@ + c.date_format + "\""@),
        config_shows(config_lines(c), "show_count = "@ + (if c.show_count {
            "true"@
        } else {
            "false"@
        })),
        config_shows(config_lines(c), "max_title_length = "@ + decimal(c.max_title_length as nat)),
        config_lines(c).len() == 17 + (if c.editor is Some {
            1int
        } else {
            0int
        }) + (if c.sync_branch is Some {
            1int
        } else {
            0int
        }),
{
    let all = config_lines(c);
    let m = main_settings(c);
    let g = git_settings(c);
    let d = display_settings(c);
    let gm = m.len() as int;
    let gd = (m.len() + g.len()) as int;
    assert(all[2] == m[2] && all[3] == m[3] && all[4] == m[4] && all[5] == m[5] && all[6] == m[6]
        && all[7] == m[7]);
    assert(all[gm + 2] == g[2]);
    assert(all[gd + 2] == d[2] && all[gd + 3] == d[3] && all[gd + 4] == d[4] && all[gd + 5] == d[5]);
    if c.editor is Some {
        assert(all[8] == m[8]);
        assert(m[8] == quoted_line("editor = \""@, c.editor->0));
    }
    if c.sync_branch is Some {
        assert(all[gm + 3] == g[3]);
        assert(g[3] == quoted_line("sync_branch = \""@, c.sync_branch->0));
    }
}

/// A value is looked up part by part: a name without parts is a member, and what stands behind
/// a dot is looked up in what the part before it names.
pub proof fn settings_are_looked_up_part_by_part(
    value: JsonView,
    part: Seq<char>,
    rest: Seq<Seq<char>>,
)
    ensures
        at_path(value, seq![part]) == value.member(part),
        value.member(part) is None ==> at_path(value, seq![part] + rest) is None,
        value.member(part) matches Some(v) ==> at_path(value, seq![part] + rest) == at_path(
            v,
            rest,
        ),
{
    assert((seq![part] + rest).drop_first() =~= rest);
    assert(seq![part].drop_first() =~= seq![]);
    if value.member(part) is Some {
        assert(at_path(value.member(part)->0, Seq::<Seq<char>>::empty()) == Some(
            value.member(part)->0,
        ));
    }
}

/// Law: where nothing is set, issues are tasks of medium priority under the prefix `trx`, and
/// nothing is staged or synchronised by itself.
pub proof fn defaults_are_these()
    ensures
        default_config().prefix == "trx"@,
        default_config().default_priority == 2,
        default_config().default_type == "task"@,
        !default_config().auto_sync && !default_config().auto_stage,
        !default_config().show_closed && default_config().colors && default_config().show_count,
        default_config().editor is None && default_config().sync_branch is None,
        default_config().date_format == "%Y-%m-%d %H:%M"@,
        default_config().max_title_length == 80,
        default_config().sync_message_template == "trx: {action} {id}"@,
{
}

} // verus!
