//! The sidebar's appearance settings, their defaults, and how the plugin
//! configuration sets them.

use vstd::prelude::*;
use crate::number::{parse_unsigned, parse_usize};
use crate::text::{chars_eq, chars_eq_str, chars_of};

verus! {

/// Formats, indicators and layout settings of the sidebar.
#[derive(Debug)]
pub struct StyleConfig {
    /// Format of an ordinary session line.
    pub format: String,
    /// Format of the session the plugin runs in.
    pub format_active: String,
    /// Format of the selected session in session mode.
    pub format_selected: String,
    /// Format of a resurrectable session.
    pub format_resurrectable: String,
    /// Line shown when sessions are hidden above; `{count}` is their number.
    pub overflow_above: String,
    /// Line shown when sessions are hidden below; `{count}` is their number.
    pub overflow_below: String,
    /// Indicator of the current session.
    pub indicator_active: String,
    /// Indicator of a session with several clients; `{n}` is their number.
    pub indicator_clients: String,
    /// Empty rows above the list.
    pub padding_top: usize,
    /// Styled text drawn at the end of every line.
    pub border: String,
    /// Width to which values are cut when a variable names none.
    pub max_name_length: usize,
    /// Number shown for the first session.
    pub start_index: usize,
    pub show_resurrectable: bool,
    pub section_live: String,
    pub section_resurrectable: String,
}

/// `c` holds the built-in settings.
pub open spec fn is_default_config(c: StyleConfig) -> bool {
    &&& c.format@ == "{index}:{name}"@
    &&& c.format_active@ == "{index}:{name} {indicators}"@
    &&& c.format_selected@ == "#[fg=accent,bold]> {index}:{name} {indicators}"@
    &&& c.format_resurrectable@ == "{index}:{name} (dead)"@
    &&& c.overflow_above@ == "  ^ +{count}"@
    &&& c.overflow_below@ == "  v +{count}"@
    &&& c.indicator_active@ == "*"@
    &&& c.indicator_clients@ == "{n}c"@
    &&& c.max_name_length == 20
    &&& c.padding_top == 0
    &&& c.border@ == Seq::<char>::empty()
    &&& c.start_index == 1
    &&& c.show_resurrectable
    &&& c.section_live@ == Seq::<char>::empty()
    &&& c.section_resurrectable@ == Seq::<char>::empty()
}

impl Default for StyleConfig {
    fn default() -> (r: Self)
        ensures
            is_default_config(r),
    {
        StyleConfig {
            format: String::from_str("{index}:{name}"),
            format_active: String::from_str("{index}:{name} {indicators}"),
            format_selected: String::from_str("#[fg=accent,bold]> {index}:{name} {indicators}"),
            format_resurrectable: String::from_str("{index}:{name} (dead)"),
            overflow_above: String::from_str("  ^ +{count}"),
            overflow_below: String::from_str("  v +{count}"),
            indicator_active: String::from_str("*"),
            indicator_clients: String::from_str("{n}c"),
            max_name_length: 20,
            padding_top: 0,
            border: String::new(),
            start_index: 1,
            show_resurrectable: true,
            section_live: String::new(),
            section_resurrectable: String::new(),
        }
    }
}

/// Whether no key occurs twice, as in a map from keys to values.
pub open spec fn keys_distinct(cfg: Seq<(Seq<char>, Seq<char>)>) -> bool {
    forall|i: int, j: int| 0 <= i < j < cfg.len() ==> (#[trigger] cfg[i]).0 != (#[trigger] cfg[j]).0
}

/// The value given for `key`, if any.
pub open spec fn config_value(cfg: Seq<(Seq<char>, Seq<char>)>, key: Seq<char>) -> Option<
    Seq<char>,
>
    decreases cfg.len(),
{
    if cfg.len() == 0 {
        None
    } else if cfg[0].0 == key {
        Some(cfg[0].1)
    } else {
        config_value(cfg.drop_first(), key)
    }
}

/// A text setting: the configured value, or the old one.
pub open spec fn text_setting(cfg: Seq<(Seq<char>, Seq<char>)>, key: Seq<char>, old: Seq<char>) -> Seq<
    char,
> {
    match config_value(cfg, key) {
        Some(v) => v,
        None => old,
    }
}

/// A number setting: the configured value when it reads as a number, or
/// the old one.
pub open spec fn count_setting(cfg: Seq<(Seq<char>, Seq<char>)>, key: Seq<char>, old: usize) -> usize {
    match config_value(cfg, key) {
        Some(v) => match parse_unsigned(v, usize::MAX as nat) {
            Some(n) => n as usize,
            None => old,
        },
        None => old,
    }
}

/// The border setting: `border`, else `border_char`, else the old value.
pub open spec fn border_setting(cfg: Seq<(Seq<char>, Seq<char>)>, old: Seq<char>) -> Seq<char> {
    match config_value(cfg, "border"@) {
        Some(v) => v,
        None => text_setting(cfg, "border_char"@, old),
    }
}

/// Whether resurrectable sessions are shown: `true` exactly when the
/// setting is the word `true`, unchanged when absent.
pub open spec fn flag_setting(cfg: Seq<(Seq<char>, Seq<char>)>, key: Seq<char>, old: bool) -> bool {
    match config_value(cfg, key) {
        Some(v) => v == "true"@,
        None => old,
    }
}

/// Looks up `key` in the configuration: the index of its first entry.
fn config_lookup(cfg: &Vec<(String, String)>, key: &str) -> (r: Option<usize>)
    ensures
        r matches Some(i) ==> i < cfg@.len() && config_value(cfg.deep_view(), key@) == Some(
            cfg@[i as int].1@,
        ),
        r is None ==> config_value(cfg.deep_view(), key@) is None,
{
    let k = chars_of(key);
    let ghost dv = cfg.deep_view();
    let mut i: usize = 0;
    assert(dv.skip(0) =~= dv);
    while i < cfg.len()
        invariant
            i <= cfg.len(),
            dv == cfg.deep_view(),
            k@ == key@,
            config_value(dv.skip(i as int), key@) == config_value(dv, key@),
        decreases cfg.len() - i,
    {
        assert(dv.skip(i as int)[0] == (cfg@[i as int].0@, cfg@[i as int].1@));
        if chars_eq(&chars_of(cfg[i].0.as_str()), &k) {
            return Some(i);
        }
        assert(dv.skip(i as int).drop_first() =~= dv.skip(i + 1));
        i += 1;
    }
    assert(dv.skip(i as int) =~= Seq::<(Seq<char>, Seq<char>)>::empty());
    None
}

fn apply_text(field: &mut String, cfg: &Vec<(String, String)>, key: &str)
    ensures
        final(field)@ == text_setting(cfg.deep_view(), key@, old(field)@),
{
    if let Some(i) = config_lookup(cfg, key) {
        *field = cfg[i].1.clone();
    }
}

fn apply_count(field: &mut usize, cfg: &Vec<(String, String)>, key: &str)
    ensures
        *final(field) == count_setting(cfg.deep_view(), key@, *old(field)),
{
    if let Some(i) = config_lookup(cfg, key) {
        if let Some(n) = parse_usize(&chars_of(cfg[i].1.as_str())) {
            *field = n;
        }
    }
}

/// `new` holds the settings that the configuration `cfg` gives over `old`.
pub open spec fn configured(new: StyleConfig, old: StyleConfig, cfg: Seq<(Seq<char>, Seq<char>)>) -> bool {
    &&& new.format@ == text_setting(cfg, "format"@, old.format@)
    &&& new.format_active@ == text_setting(
            cfg,
            "format_active"@,
            old.format_active@,
        )
    &&& new.format_selected@ == text_setting(
            cfg,
            "format_selected"@,
            old.format_selected@,
        )
    &&& new.format_resurrectable@ == text_setting(
            cfg,
            "format_resurrectable"@,
            old.format_resurrectable@,
        )
    &&& new.overflow_above@ == text_setting(
            cfg,
            "overflow_above"@,
            old.overflow_above@,
        )
    &&& new.overflow_below@ == text_setting(
            cfg,
            "overflow_below"@,
            old.overflow_below@,
        )
    &&& new.indicator_active@ == text_setting(
            cfg,
            "indicator_active"@,
            old.indicator_active@,
        )
    &&& new.indicator_clients@ == text_setting(
            cfg,
            "indicator_clients"@,
            old.indicator_clients@,
        )
    &&& new.max_name_length == count_setting(
            cfg,
            "max_name_length"@,
            old.max_name_length,
        )
    &&& new.padding_top == count_setting(
            cfg,
            "padding_top"@,
            old.padding_top,
        )
    &&& new.border@ == border_setting(cfg, old.border@)
    &&& new.start_index == count_setting(
            cfg,
            "start_index"@,
            old.start_index,
        )
    &&& new.show_resurrectable == flag_setting(
            cfg,
            "show_resurrectable"@,
            old.show_resurrectable,
        )
    &&& new.section_live@ == text_setting(
            cfg,
            "section_live"@,
            old.section_live@,
        )
    &&& new.section_resurrectable@ == text_setting(
            cfg,
            "section_resurrectable"@,
            old.section_resurrectable@,
        )
}

impl StyleConfig {
    /// Takes the settings that the plugin configuration gives; settings it
    /// does not mention, and numbers that do not read as numbers, are kept.
    pub fn apply_configuration(&mut self, cfg: &Vec<(String, String)>)
        requires
            keys_distinct(cfg.deep_view()),
        ensures
            configured(*final(self), *old(self), cfg.deep_view()),
    {
        apply_text(&mut self.format, cfg, "format");
        apply_text(&mut self.format_active, cfg, "format_active");
        apply_text(&mut self.format_selected, cfg, "format_selected");
        apply_text(&mut self.format_resurrectable, cfg, "format_resurrectable");
        apply_text(&mut self.overflow_above, cfg, "overflow_above");
        apply_text(&mut self.overflow_below, cfg, "overflow_below");
        apply_text(&mut self.indicator_active, cfg, "indicator_active");
        apply_text(&mut self.indicator_clients, cfg, "indicator_clients");
        apply_count(&mut self.max_name_length, cfg, "max_name_length");
        apply_count(&mut self.padding_top, cfg, "padding_top");
        if let Some(i) = config_lookup(cfg, "border") {
            self.border = cfg[i].1.clone();
        } else {
            apply_text(&mut self.border, cfg, "border_char");
        }
        apply_count(&mut self.start_index, cfg, "start_index");
        if let Some(i) = config_lookup(cfg, "show_resurrectable") {
            self.show_resurrectable = chars_eq_str(&chars_of(cfg[i].1.as_str()), "true");
        }
        apply_text(&mut self.section_live, cfg, "section_live");
        apply_text(&mut self.section_resurrectable, cfg, "section_resurrectable");
    }
}

/// In a configuration without repeated keys, the value given for a key is
/// the value of the entry that names it.
proof fn lemma_value_of_entry(cfg: Seq<(Seq<char>, Seq<char>)>, k: int)
    requires
        keys_distinct(cfg),
        0 <= k < cfg.len(),
    ensures
        config_value(cfg, cfg[k].0) == Some(cfg[k].1),
    decreases k,
{
    if k > 0 {
        let tail = cfg.drop_first();
        assert(cfg[0].0 != cfg[k].0);
        assert forall|i: int, j: int| 0 <= i < j < tail.len() implies (#[trigger] tail[i]).0 != (
        #[trigger] tail[j]).0 by {
            assert(tail[i] == cfg[i + 1] && tail[j] == cfg[j + 1]);
        }
        assert(tail[k - 1] == cfg[k]);
        lemma_value_of_entry(tail, k - 1);
    }
}

/// A key that no entry names has no value.
proof fn lemma_value_absent(cfg: Seq<(Seq<char>, Seq<char>)>, key: Seq<char>)
    requires
        forall|k: int| 0 <= k < cfg.len() ==> (#[trigger] cfg[k]).0 != key,
    ensures
        config_value(cfg, key) is None,
    decreases cfg.len(),
{
    if cfg.len() > 0 {
        let tail = cfg.drop_first();
        assert(cfg[0].0 != key);
        assert forall|k: int| 0 <= k < tail.len() implies (#[trigger] tail[k]).0 != key by {
            assert(tail[k] == cfg[k + 1]);
        }
        lemma_value_absent(tail, key);
    }
}

/// A configuration entry takes effect: an entry for a number setting
/// (`start_index`, `max_name_length`, `padding_top`) whose value reads as
/// the number `n` sets it to `n`, and one whose value does not read as a
/// number keeps the old value; an entry for a text setting sets that text
/// to the entry's value; `show_resurrectable` is on exactly when its value
/// is `true`. Keys are distinct, as in the map the host hands over.
pub proof fn lemma_entry_takes_effect(
    new: StyleConfig,
    old: StyleConfig,
    cfg: Seq<(Seq<char>, Seq<char>)>,
    k: int,
)
    requires
        configured(new, old, cfg),
        keys_distinct(cfg),
        0 <= k < cfg.len(),
    ensures
        ({
            let (key, v) = cfg[k];
            let num = parse_unsigned(v, usize::MAX as nat);
            &&& key == "start_index"@ ==> new.start_index == (match num {
                Some(n) => n as usize,
                None => old.start_index,
            })
            &&& key == "max_name_length"@ ==> new.max_name_length == (match num {
                Some(n) => n as usize,
                None => old.max_name_length,
            })
            &&& key == "padding_top"@ ==> new.padding_top == (match num {
                Some(n) => n as usize,
                None => old.padding_top,
            })
            &&& key == "format"@ ==> new.format@ == v
            &&& key == "format_active"@ ==> new.format_active@ == v
            &&& key == "format_selected"@ ==> new.format_selected@ == v
            &&& key == "format_resurrectable"@ ==> new.format_resurrectable@ == v
            &&& key == "overflow_above"@ ==> new.overflow_above@ == v
            &&& key == "overflow_below"@ ==> new.overflow_below@ == v
            &&& key == "indicator_active"@ ==> new.indicator_active@ == v
            &&& key == "indicator_clients"@ ==> new.indicator_clients@ == v
            &&& key == "section_live"@ ==> new.section_live@ == v
            &&& key == "section_resurrectable"@ ==> new.section_resurrectable@ == v
            &&& key == "border"@ ==> new.border@ == v
            &&& key == "show_resurrectable"@ ==> new.show_resurrectable == (v == "true"@)
        }),
{
    lemma_value_of_entry(cfg, k);
}

/// A setting that no entry names keeps its old value.
pub proof fn lemma_unnamed_setting_kept(
    new: StyleConfig,
    old: StyleConfig,
    cfg: Seq<(Seq<char>, Seq<char>)>,
)
    requires
        configured(new, old, cfg),
    ensures
        (forall|k: int| 0 <= k < cfg.len() ==> (#[trigger] cfg[k]).0 != "start_index"@)
            ==> new.start_index == old.start_index,
        (forall|k: int| 0 <= k < cfg.len() ==> (#[trigger] cfg[k]).0 != "max_name_length"@)
            ==> new.max_name_length == old.max_name_length,
        (forall|k: int| 0 <= k < cfg.len() ==> (#[trigger] cfg[k]).0 != "padding_top"@)
            ==> new.padding_top == old.padding_top,
        (forall|k: int| 0 <= k < cfg.len() ==> (#[trigger] cfg[k]).0 != "format"@) ==> new.format@
            == old.format@,
        (forall|k: int| 0 <= k < cfg.len() ==> (#[trigger] cfg[k]).0 != "show_resurrectable"@)
            ==> new.show_resurrectable == old.show_resurrectable,
{
    if forall|k: int| 0 <= k < cfg.len() ==> (#[trigger] cfg[k]).0 != "start_index"@ {
        lemma_value_absent(cfg, "start_index"@);
    }
    if forall|k: int| 0 <= k < cfg.len() ==> (#[trigger] cfg[k]).0 != "max_name_length"@ {
        lemma_value_absent(cfg, "max_name_length"@);
    }
    if forall|k: int| 0 <= k < cfg.len() ==> (#[trigger] cfg[k]).0 != "padding_top"@ {
        lemma_value_absent(cfg, "padding_top"@);
    }
    if forall|k: int| 0 <= k < cfg.len() ==> (#[trigger] cfg[k]).0 != "format"@ {
        lemma_value_absent(cfg, "format"@);
    }
    if forall|k: int| 0 <= k < cfg.len() ==> (#[trigger] cfg[k]).0 != "show_resurrectable"@ {
        lemma_value_absent(cfg, "show_resurrectable"@);
    }
}

} // verus!
