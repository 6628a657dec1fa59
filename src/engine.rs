use vstd::prelude::*;

use crate::json::{member, members_view, Json, JsonView};
use crate::keyed::{find_key, key_seq, upsert};
use crate::text::text_eq;

verus! {

broadcast use vstd::string::group_string_axioms;

/// An engine's configuration: whether it is enabled, and per ruleset id a JSON
/// object of per-rule settings.
#[derive(Debug)]
pub struct EngineConfig {
    pub enabled: Option<bool>,
    pub rulesets: Option<Vec<(String, Json)>>,
}

pub struct EngineConfigView {
    pub enabled: Option<bool>,
    pub rulesets: Option<Seq<(Seq<char>, JsonView)>>,
}

impl View for EngineConfig {
    type V = EngineConfigView;

    open spec fn view(&self) -> EngineConfigView {
        EngineConfigView {
            enabled: self.enabled,
            rulesets: match self.rulesets {
                Some(m) => Some(members_view(m@)),
                None => None,
            },
        }
    }
}

/// `base` with every entry of `over` set in turn: keys of `over` win.
pub open spec fn overlay(base: Seq<(Seq<char>, JsonView)>, over: Seq<(Seq<char>, JsonView)>) -> Seq<
    (Seq<char>, JsonView),
>
    decreases over.len(),
{
    if over.len() == 0 {
        base
    } else {
        upsert(overlay(base, over.drop_last()), over.last().0, over.last().1)
    }
}

/// The merge of user settings over defaults: `enabled` is the user's, else the
/// default's, else true; the rulesets are the defaults with the user's entries
/// set over them, whole.
pub open spec fn merged_config(defaults: EngineConfigView, user: EngineConfigView) -> EngineConfigView {
    EngineConfigView {
        enabled: Some(
            match user.enabled {
                Some(b) => b,
                None => match defaults.enabled {
                    Some(b) => b,
                    None => true,
                },
            },
        ),
        rulesets: Some(
            overlay(
                match defaults.rulesets {
                    Some(m) => m,
                    None => Seq::empty(),
                },
                match user.rulesets {
                    Some(m) => m,
                    None => Seq::empty(),
                },
            ),
        ),
    }
}

/// A copy of a list of JSON members.
pub fn copy_members(m: &Vec<(String, Json)>) -> (r: Vec<(String, Json)>)
    ensures
        members_view(r@) == members_view(m@),
{
    let mut out: Vec<(String, Json)> = Vec::new();
    let mut i: usize = 0;
    while i < m.len()
        invariant
            0 <= i <= m@.len(),
            out@.len() == i,
            forall|k: int|
                0 <= k < i ==> (#[trigger] out@[k]).0@ == m@[k].0@ && out@[k].1@ == m@[k].1@,
        decreases m@.len() - i,
    {
        out.push((m[i].0.clone(), m[i].1.duplicate()));
        i += 1;
    }
    assert(members_view(out@) =~= members_view(m@));
    out
}

/// Sets member `k` to `v`: in place when the key is there, at the end otherwise.
pub fn members_insert(m: &mut Vec<(String, Json)>, k: String, v: Json)
    ensures
        members_view(final(m)@) == upsert(members_view(old(m)@), k@, v@),
{
    assert(members_view(old(m)@).map_values(|e: (Seq<char>, JsonView)| e.0) =~= key_seq(old(m)@));
    match find_key(m, k.as_str()) {
        Some(i) => {
            let ghost before = m@;
            m.set(i, (k, v));
            assert(members_view(m@) =~= members_view(before).update(i as int, (k@, v@)));
        },
        None => {
            let ghost before = m@;
            m.push((k, v));
            assert(members_view(m@) =~= members_view(before).push((k@, v@)));
        },
    }
}

impl EngineConfig {
    /// No settings at all.
    pub fn empty() -> (r: Self)
        ensures
            r@ == (EngineConfigView { enabled: None, rulesets: None }),
    {
        EngineConfig { enabled: None, rulesets: None }
    }

    /// A copy of this configuration.
    pub fn duplicate(&self) -> (r: Self)
        ensures
            r@ == self@,
    {
        EngineConfig {
            enabled: self.enabled,
            rulesets: match &self.rulesets {
                Some(m) => Some(copy_members(m)),
                None => None,
            },
        }
    }
}

/// The JSON object an engine configuration is sent as; an absent setting is
/// `null`.
pub open spec fn engine_config_json(c: EngineConfigView) -> JsonView {
    JsonView::Object(
        seq![
            ("enabled"@, match c.enabled {
                Some(b) => JsonView::Bool(b),
                None => JsonView::Null,
            }),
            ("rulesets"@, match c.rulesets {
                Some(m) => JsonView::Object(m),
                None => JsonView::Null,
            }),
        ],
    )
}

/// The engine configuration a JSON object holds: `enabled` a boolean and
/// `rulesets` an object, each optional (absent or `null`).
pub open spec fn engine_config_of(j: JsonView) -> Option<EngineConfigView> {
    if !(j is Object) {
        None
    } else {
        let enabled = match crate::protocol::optional_member(j, "enabled"@) {
            None => Some(None),
            Some(JsonView::Bool(b)) => Some(Some(b)),
            Some(_) => None,
        };
        let rulesets = match crate::protocol::optional_member(j, "rulesets"@) {
            None => Some(None),
            Some(JsonView::Object(m)) => Some(Some(m)),
            Some(_) => None,
        };
        match (enabled, rulesets) {
            (Some(e), Some(r)) => Some(EngineConfigView { enabled: e, rulesets: r }),
            _ => None,
        }
    }
}

impl EngineConfig {
    pub fn to_json(&self) -> (r: Json)
        ensures
            r@ == engine_config_json(self@),
    {
        let enabled = match self.enabled {
            Some(b) => Json::Bool(b),
            None => Json::Null,
        };
        let rulesets = match &self.rulesets {
            Some(m) => {
                let c = copy_members(m);
                proof {
                    Json::lemma_object_view(c);
                }
                Json::Object(c)
            },
            None => Json::Null,
        };
        let m = vec![("enabled".to_owned(), enabled), ("rulesets".to_owned(), rulesets)];
        proof {
            Json::lemma_object_view(m);
            assert(members_view(m@) =~= engine_config_json(self@)->Object_0);
        }
        Json::Object(m)
    }

    /// The engine configuration a JSON value holds, if it holds one.
    pub fn from_json(j: &Json) -> (r: Option<EngineConfig>)
        ensures
            r is None ==> engine_config_of(j@) is None,
            r matches Some(c) ==> engine_config_of(j@) == Some(c@),
    {
        if !(match j {
            Json::Object(_) => true,
            _ => false,
        }) {
            return None;
        }
        let enabled = match j.get("enabled") {
            None => None,
            Some(Json::Null) => None,
            Some(Json::Bool(b)) => Some(*b),
            Some(_) => return None,
        };
        let rulesets = match j.get("rulesets") {
            None => None,
            Some(Json::Null) => None,
            Some(Json::Object(m)) => {
                proof {
                    Json::lemma_object_view(*m);
                }
                Some(copy_members(m))
            },
            Some(_) => return None,
        };
        Some(EngineConfig { enabled, rulesets })
    }
}

/// Merges user settings over the defaults.
pub fn merge_engine_config(defaults: &EngineConfig, user: &EngineConfig) -> (r: EngineConfig)
    ensures
        r@ == merged_config(defaults@, user@),
{
    let enabled = match user.enabled {
        Some(b) => b,
        None => match defaults.enabled {
            Some(b) => b,
            None => true,
        },
    };
    let mut rulesets = match &defaults.rulesets {
        Some(m) => copy_members(m),
        None => Vec::new(),
    };
    let ghost base = members_view(rulesets@);
    assert(base == match defaults@.rulesets {
        Some(m) => m,
        None => Seq::empty(),
    }) by {
        if defaults.rulesets is None {
            assert(base =~= Seq::<(Seq<char>, JsonView)>::empty());
        }
    }
    match &user.rulesets {
        Some(u) => {
            let ghost over = members_view(u@);
            let mut i: usize = 0;
            assert(over.take(0) =~= Seq::<(Seq<char>, JsonView)>::empty());
            while i < u.len()
                invariant
                    0 <= i <= u@.len(),
                    over == members_view(u@),
                    members_view(rulesets@) == overlay(base, over.take(i as int)),
                decreases u@.len() - i,
            {
                assert(over.take(i + 1).drop_last() =~= over.take(i as int));
                members_insert(&mut rulesets, u[i].0.clone(), u[i].1.duplicate());
                i += 1;
            }
            assert(over.take(over.len() as int) =~= over);
        },
        None => {
            assert(members_view(Seq::<(String, Json)>::empty()) =~= Seq::<(Seq<char>, JsonView)>::empty());
        },
    }
    EngineConfig { enabled: Some(enabled), rulesets: Some(rulesets) }
}

/// Merging an empty user configuration keeps the defaults, with `enabled`
/// set (true unless the defaults say otherwise) and the rulesets present.
pub proof fn lemma_merge_empty(defaults: EngineConfigView)
    ensures
        merged_config(defaults, EngineConfigView { enabled: None, rulesets: None }) == (EngineConfigView {
            enabled: Some(
                match defaults.enabled {
                    Some(b) => b,
                    None => true,
                },
            ),
            rulesets: Some(
                match defaults.rulesets {
                    Some(m) => m,
                    None => Seq::empty(),
                },
            ),
        }),
{
}

/// An empty JSON object.
pub open spec fn empty_object() -> JsonView {
    JsonView::Object(Seq::empty())
}

/// The options a rule setting gives: `"off"` and `["off", ..]` disable the
/// rule; another string enables it with no options; `[level, opts]` enables it
/// with `opts` (no options when absent); an object enables it with itself as
/// options; any other value leaves the rule out.
pub open spec fn setting_options(setting: JsonView) -> Option<JsonView> {
    match setting {
        JsonView::Str(s) => if s == "off"@ {
            None
        } else {
            Some(empty_object())
        },
        JsonView::Array(a) => if a.len() > 0 && a[0] == JsonView::Str("off"@) {
            None
        } else if a.len() > 1 {
            Some(a[1])
        } else {
            Some(empty_object())
        },
        JsonView::Object(_) => Some(setting),
        _ => None,
    }
}

/// The options of the enabled rules of a per-rule settings object, set one by
/// one in member order.
pub open spec fn options_of_settings(m: Seq<(Seq<char>, JsonView)>) -> Seq<(Seq<char>, JsonView)>
    decreases m.len(),
{
    if m.len() == 0 {
        Seq::empty()
    } else {
        let r = options_of_settings(m.drop_last());
        match setting_options(m.last().1) {
            Some(o) => upsert(r, m.last().0, o),
            None => r,
        }
    }
}

/// The rule options a ruleset entry of the configuration gives; none when it is
/// not an object.
pub open spec fn rule_options(entry: JsonView) -> Seq<(Seq<char>, JsonView)> {
    match entry {
        JsonView::Object(m) => options_of_settings(m),
        _ => Seq::empty(),
    }
}

/// An empty JSON object.
pub fn new_object() -> (r: Json)
    ensures
        r@ == empty_object(),
{
    let m: Vec<(String, Json)> = Vec::new();
    proof {
        Json::lemma_object_view(m);
        assert(members_view(m@) =~= Seq::<(Seq<char>, JsonView)>::empty());
    }
    Json::Object(m)
}

/// The options one setting gives.
pub fn options_of_setting(setting: &Json) -> (r: Option<Json>)
    ensures
        r is None ==> setting_options(setting@) is None,
        r matches Some(o) ==> setting_options(setting@) == Some(o@),
{
    match setting {
        Json::Str(s) => {
            if text_eq(s.as_str(), "off") {
                None
            } else {
                Some(new_object())
            }
        },
        Json::Array(a) => {
            proof {
                Json::lemma_array_view(*a);
            }
            if a.len() > 0 {
                if let Json::Str(level) = &a[0] {
                    if text_eq(level.as_str(), "off") {
                        return None;
                    }
                }
            }
            if a.len() > 1 {
                Some(a[1].duplicate())
            } else {
                Some(new_object())
            }
        },
        Json::Object(_) => Some(setting.duplicate()),
        _ => None,
    }
}

/// The options of the enabled rules of a ruleset entry, by rule id.
pub fn rule_options_of(entry: &Json) -> (r: Vec<(String, Json)>)
    ensures
        members_view(r@) == rule_options(entry@),
{
    let mut config: Vec<(String, Json)> = Vec::new();
    assert(members_view(config@) =~= Seq::<(Seq<char>, JsonView)>::empty());
    if let Json::Object(obj) = entry {
        proof {
            Json::lemma_object_view(*obj);
        }
        let ghost m = members_view(obj@);
        let mut i: usize = 0;
        assert(m.take(0) =~= Seq::<(Seq<char>, JsonView)>::empty());
        while i < obj.len()
            invariant
                0 <= i <= obj@.len(),
                m == members_view(obj@),
                members_view(config@) == options_of_settings(m.take(i as int)),
            decreases obj@.len() - i,
        {
            assert(m.take(i + 1).drop_last() =~= m.take(i as int));
            if let Some(o) = options_of_setting(&obj[i].1) {
                members_insert(&mut config, obj[i].0.clone(), o);
            }
            i += 1;
        }
        assert(m.take(m.len() as int) =~= m);
    }
    config
}

} // verus!
