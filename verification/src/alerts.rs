//! The alert dispatcher: per-(severity, message) cooldown and fan-out to the
//! configured notification providers. This module decides *what* to send and
//! builds the outbound request bodies; the surrounding process performs the
//! HTTP calls and reports each provider's failure independently.

use vstd::prelude::*;
use vstd::string::{StrSliceExecFns, StringExecFns};
use crate::decimal::{dec_chars, digits_from_u64, string_of_digits};
use crate::events::Severity;
use crate::state::{
    lemma_assoc_found, lemma_assoc_push, lemma_assoc_update, lemma_assoc_absent, spec_assoc_get,
    unique_keys,
};
use crate::text::str_eq;

verus! {

/// Seconds during which an alert with the same deduplication key is
/// suppressed after a dispatch.
pub const COOLDOWN_SECS: u64 = 60;

/// Notification endpoints. An empty webhook URL disables the webhook; absent
/// or empty Telegram credentials disable Telegram.
pub struct AlertsConfig {
    pub webhook_url: String,
    pub telegram_bot_token: Option<String>,
    pub telegram_chat_id: Option<String>,
}

pub open spec fn webhook_enabled(c: AlertsConfig) -> bool {
    c.webhook_url@.len() > 0
}

pub open spec fn telegram_enabled(c: AlertsConfig) -> bool {
    &&& c.telegram_bot_token matches Some(t) && t@.len() > 0
    &&& c.telegram_chat_id matches Some(i) && i@.len() > 0
}

/// One field of a webhook embed.
pub struct EmbedField {
    pub name: String,
    pub value: String,
    pub inline: bool,
}

/// A Discord-shaped webhook request: one embed with a title, a description,
/// a severity color and two fields; the JSON `content` member is null.
pub struct DiscordPost {
    pub url: String,
    pub title: String,
    pub description: String,
    pub color: u32,
    pub fields: Vec<EmbedField>,
}

/// A Telegram sendMessage request.
pub struct TelegramPost {
    pub url: String,
    pub chat_id: String,
    pub text: String,
    pub parse_mode: String,
}

/// One outbound notification request, ready for an HTTP client.
pub enum OutboundPost {
    Discord(DiscordPost),
    Telegram(TelegramPost),
}

/// The per-severity embed color, as an RGB integer.
pub open spec fn spec_severity_color(s: Severity) -> u32 {
    match s {
        Severity::Critical => 0xFF0000,
        Severity::High => 0xE67E22,
        Severity::Medium => 0xF1C40F,
        Severity::Low => 0x3498DB,
    }
}

pub fn severity_color(s: Severity) -> (r: u32)
    ensures
        r == spec_severity_color(s),
{
    match s {
        Severity::Critical => 0xFF0000,
        Severity::High => 0xE67E22,
        Severity::Medium => 0xF1C40F,
        Severity::Low => 0x3498DB,
    }
}

pub open spec fn alert_title(s: Severity) -> Seq<char> {
    "EVM Watchdog Alert: "@ + s.spec_label()
}

/// The deduplication key: severity label, a colon, and the message.
pub open spec fn alert_key(s: Severity, msg: Seq<char>) -> Seq<char> {
    s.spec_label() + ":"@ + msg
}

pub open spec fn telegram_text(s: Severity, msg: Seq<char>, now: u64) -> Seq<char> {
    "Severity: "@ + s.spec_label() + "\nMessage: "@ + msg + "\nTime: "@ + dec_chars(now as nat)
}

pub open spec fn telegram_url(token: Seq<char>) -> Seq<char> {
    "https://api.telegram.org/bot"@ + token + "/sendMessage"@
}

pub open spec fn is_discord_post(
    p: OutboundPost,
    c: AlertsConfig,
    sev: Severity,
    msg: Seq<char>,
    now: u64,
) -> bool {
    &&& p matches OutboundPost::Discord(d)
    &&& d.url@ == c.webhook_url@
    &&& d.title@ == alert_title(sev)
    &&& d.description@ == msg
    &&& d.color == spec_severity_color(sev)
    &&& d.fields@.len() == 2
    &&& d.fields@[0].name@ == "Severity"@
    &&& d.fields@[0].value@ == sev.spec_label()
    &&& d.fields@[0].inline
    &&& d.fields@[1].name@ == "Timestamp"@
    &&& d.fields@[1].value@ == dec_chars(now as nat)
    &&& d.fields@[1].inline
}

pub open spec fn is_telegram_post(
    p: OutboundPost,
    c: AlertsConfig,
    sev: Severity,
    msg: Seq<char>,
    now: u64,
) -> bool {
    &&& p matches OutboundPost::Telegram(t)
    &&& c.telegram_bot_token matches Some(tok) && t.url@ == telegram_url(tok@)
    &&& c.telegram_chat_id matches Some(ci) && t.chat_id@ == ci@
    &&& t.text@ == telegram_text(sev, msg, now)
    &&& t.parse_mode@ == "Markdown"@
}

/// Exactly one post per enabled provider, webhook first.
pub open spec fn spec_posts(
    c: AlertsConfig,
    sev: Severity,
    msg: Seq<char>,
    now: u64,
    posts: Seq<OutboundPost>,
) -> bool {
    if webhook_enabled(c) && telegram_enabled(c) {
        posts.len() == 2 && is_discord_post(posts[0], c, sev, msg, now) && is_telegram_post(
            posts[1],
            c,
            sev,
            msg,
            now,
        )
    } else if webhook_enabled(c) {
        posts.len() == 1 && is_discord_post(posts[0], c, sev, msg, now)
    } else if telegram_enabled(c) {
        posts.len() == 1 && is_telegram_post(posts[0], c, sev, msg, now)
    } else {
        posts.len() == 0
    }
}

/// The position of a key in the dispatch history, if present.
fn find_key(entries: &Vec<(String, u64)>, key: &str) -> (r: Option<usize>)
    ensures
        r matches Some(i) ==> 0 <= i < entries@.len() && entries@[i as int].0@ == key@ && (forall|
            j: int,
        | 0 <= j < i ==> (#[trigger] entries@[j]).0@ != key@),
        r is None ==> forall|j: int| 0 <= j < entries@.len() ==> (#[trigger] entries@[j]).0@ != key@,
{
    let mut i: usize = 0;
    while i < entries.len()
        invariant
            i <= entries@.len(),
            forall|j: int| 0 <= j < i ==> (#[trigger] entries@[j]).0@ != key@,
        decreases entries@.len() - i,
    {
        if str_eq(entries[i].0.as_str(), key) {
            return Some(i);
        }
        i += 1;
    }
    None
}

/// The dispatch history as a ghost association list of key views to stamps.
pub open spec fn model_get(m: Seq<(Seq<char>, u64)>, k: Seq<char>) -> Option<u64>
    decreases m.len(),
{
    if m.len() == 0 {
        None
    } else if m[0].0 == k {
        Some(m[0].1)
    } else {
        model_get(m.drop_first(), k)
    }
}

/// Overwrite the stamp of a present key, or append an absent one.
pub open spec fn model_stamp(m: Seq<(Seq<char>, u64)>, k: Seq<char>, now: u64) -> Seq<
    (Seq<char>, u64),
> {
    if model_get(m, k) is Some {
        Seq::new(m.len(), |i: int| if m[i].0 == k {
            (k, now)
        } else {
            m[i]
        })
    } else {
        m.push((k, now))
    }
}

pub open spec fn model_suppressed(
    m: Seq<(Seq<char>, u64)>,
    cooldown: u64,
    k: Seq<char>,
    now: u64,
) -> bool {
    match model_get(m, k) {
        Some(t) => (now as int) < t + cooldown,
        None => false,
    }
}

/// The ghost image of an exec dispatch history.
pub open spec fn history_model_of(s: Seq<(String, u64)>) -> Seq<(Seq<char>, u64)> {
    s.map_values(|p: (String, u64)| (p.0@, p.1))
}

/// The ghost lookup agrees with the exec-level one.
pub proof fn lemma_model_get(s: Seq<(String, u64)>, k: Seq<char>)
    ensures
        model_get(history_model_of(s), k) == spec_assoc_get(s, k),
    decreases s.len(),
{
    if s.len() > 0 {
        assert(history_model_of(s).drop_first() =~= history_model_of(s.drop_first()));
        lemma_model_get(s.drop_first(), k);
    }
}

/// Deduplicating, rate-limiting dispatcher state.
pub struct AlertManager {
    pub config: AlertsConfig,
    /// When each deduplication key last dispatched.
    pub last_alerts: Vec<(String, u64)>,
    /// Suppression window, in seconds.
    pub cooldown: u64,
}

/// Is this key still inside its cooldown window at time `now`?
pub open spec fn spec_suppressed(m: AlertManager, key: Seq<char>, now: u64) -> bool {
    match spec_assoc_get(m.last_alerts@, key) {
        Some(t) => (now as int) < t + m.cooldown,
        None => false,
    }
}

impl AlertManager {
    pub open spec fn wf(self) -> bool {
        unique_keys(self.last_alerts@)
    }

    /// The ghost image of the dispatch history.
    pub open spec fn history_model(self) -> Seq<(Seq<char>, u64)> {
        history_model_of(self.last_alerts@)
    }

    pub fn new(config: AlertsConfig) -> (r: AlertManager)
        ensures
            r.wf(),
            r.config == config,
            r.last_alerts@.len() == 0,
            r.cooldown == COOLDOWN_SECS,
    {
        AlertManager { config, last_alerts: Vec::new(), cooldown: COOLDOWN_SECS }
    }

    /// Dispatch an alert unless an identical (severity, message) key fired
    /// within the cooldown window. Returns the outbound requests to perform:
    /// one per enabled provider, or none when suppressed.
    pub fn send_alert(&mut self, severity: Severity, message: String, now: u64) -> (posts: Vec<
        OutboundPost,
    >)
        requires
            old(self).wf(),
        ensures
            final(self).wf(),
            final(self).config == old(self).config,
            final(self).cooldown == old(self).cooldown,
            spec_suppressed(*old(self), alert_key(severity, message@), now)
                == model_suppressed(
                old(self).history_model(),
                old(self).cooldown,
                alert_key(severity, message@),
                now,
            ),
            spec_suppressed(*old(self), alert_key(severity, message@), now) ==> posts@.len() == 0
                && final(self).last_alerts == old(self).last_alerts,
            !spec_suppressed(*old(self), alert_key(severity, message@), now) ==> {
                &&& final(self).history_model() == model_stamp(
                    old(self).history_model(),
                    alert_key(severity, message@),
                    now,
                )
                &&& spec_assoc_get(final(self).last_alerts@, alert_key(severity, message@))
                    == Some(now)
                &&& forall|k: Seq<char>|
                    k != alert_key(severity, message@) ==> #[trigger] spec_assoc_get(
                        final(self).last_alerts@,
                        k,
                    ) == spec_assoc_get(old(self).last_alerts@, k)
                &&& spec_posts(old(self).config, severity, message@, now, posts@)
            },
    {
        let mut key = severity.label();
        key.append(":");
        key.append(message.as_str());
        proof {
            assert(key@ =~= alert_key(severity, message@));
        }
        let ghost keyv = key@;
        proof {
            lemma_model_get(old(self).last_alerts@, keyv);
        }

        // Cooldown check and timestamp refresh, under one lock in the
        // surrounding process.
        match find_key(&self.last_alerts, key.as_str()) {
            Some(i) => {
                proof {
                    lemma_assoc_found(self.last_alerts@, i as int);
                }
                let t = self.last_alerts[i].1;
                if now < t || now - t < self.cooldown {
                    proof {
                        assert(spec_suppressed(*old(self), keyv, now));
                    }
                    return Vec::new();
                }
                let entry_key = self.last_alerts[i].0.clone();
                let ghost pre = self.last_alerts@;
                self.last_alerts.set(i, (entry_key, now));
                proof {
                    assert(self.last_alerts@ =~= pre.update(i as int, (pre[i as int].0, now)));
                    assert forall|k: Seq<char>| true implies spec_assoc_get(
                        pre.update(i as int, (pre[i as int].0, now)),
                        k,
                    ) == if k == pre[i as int].0@ {
                        Some(now)
                    } else {
                        spec_assoc_get(pre, k)
                    } by {
                        lemma_assoc_update(pre, i as int, now, k);
                    }
                    assert forall|x: int, y: int|
                        0 <= x < y < self.last_alerts@.len() implies (
                    #[trigger] self.last_alerts@[x]).0@ != (#[trigger] self.last_alerts@[y]).0@ by {
                        assert(self.last_alerts@[x].0 == pre[x].0);
                        assert(self.last_alerts@[y].0 == pre[y].0);
                        assert(pre[x].0@ != pre[y].0@);
                    }
                    assert(model_get(history_model_of(pre), keyv) is Some);
                    assert forall|j: int| 0 <= j < self.last_alerts@.len() implies
                        #[trigger] history_model_of(self.last_alerts@)[j] == model_stamp(
                        history_model_of(pre),
                        keyv,
                        now,
                    )[j] by {
                        if j != i {
                            assert(pre[j].0@ != pre[i as int].0@);
                        }
                    }
                    assert(history_model_of(self.last_alerts@) =~= model_stamp(
                        history_model_of(pre),
                        keyv,
                        now,
                    ));
                }
            },
            None => {
                proof {
                    lemma_assoc_absent(self.last_alerts@, keyv);
                    assert(!spec_suppressed(*old(self), keyv, now));
                }
                let ghost pre = self.last_alerts@;
                self.last_alerts.push((key, now));
                proof {
                    assert forall|k: Seq<char>| true implies spec_assoc_get(self.last_alerts@, k)
                        == if spec_assoc_get(pre, k) is Some {
                        spec_assoc_get(pre, k)
                    } else if k == keyv {
                        Some(now)
                    } else {
                        None::<u64>
                    } by {
                        lemma_assoc_push(pre, self.last_alerts@.last(), k);
                        assert(pre.push(self.last_alerts@.last()) =~= self.last_alerts@);
                    }
                    assert forall|x: int, y: int|
                        0 <= x < y < self.last_alerts@.len() implies (
                    #[trigger] self.last_alerts@[x]).0@ != (#[trigger] self.last_alerts@[y]).0@ by {
                        if y < pre.len() {
                            assert(self.last_alerts@[x] == pre[x]);
                            assert(self.last_alerts@[y] == pre[y]);
                            assert(pre[x].0@ != pre[y].0@);
                        } else {
                            assert(self.last_alerts@[x] == pre[x]);
                            assert(self.last_alerts@[y].0@ == keyv);
                            assert(pre[x].0@ != keyv);
                        }
                    }
                    lemma_model_get(pre, keyv);
                    assert(model_get(history_model_of(pre), keyv) is None);
                    assert(history_model_of(self.last_alerts@) =~= history_model_of(pre).push(
                        (keyv, now),
                    ));
                }
            },
        }

        // Fan out to every enabled provider.
        let mut posts: Vec<OutboundPost> = Vec::new();
        let now_digits = digits_from_u64(now);
        let now_text = string_of_digits(&now_digits);
        let label = severity.label();
        if self.config.webhook_url.as_str().unicode_len() > 0 {
            let mut title = String::from_str("EVM Watchdog Alert: ");
            title.append(label.as_str());
            proof {
                assert(title@ =~= alert_title(severity));
            }
            let mut fields: Vec<EmbedField> = Vec::new();
            fields.push(EmbedField { name: String::from_str("Severity"), value: severity.label(), inline: true });
            fields.push(
                EmbedField { name: String::from_str("Timestamp"), value: now_text.clone(), inline: true },
            );
            let post = DiscordPost {
                url: self.config.webhook_url.clone(),
                title,
                description: message.clone(),
                color: severity_color(severity),
                fields,
            };
            posts.push(OutboundPost::Discord(post));
        }
        let telegram = match &self.config.telegram_bot_token {
            Some(token) => match &self.config.telegram_chat_id {
                Some(chat_id) => if token.as_str().unicode_len() > 0 && chat_id.as_str().unicode_len() > 0 {
                    Some((token, chat_id))
                } else {
                    None
                },
                None => None,
            },
            None => None,
        };
        match telegram {
            Some((token, chat_id)) => {
                let mut url = String::from_str("https://api.telegram.org/bot");
                url.append(token.as_str());
                url.append("/sendMessage");
                proof {
                    assert(url@ =~= telegram_url(token@));
                }
                let mut text = String::from_str("Severity: ");
                text.append(label.as_str());
                text.append("\nMessage: ");
                text.append(message.as_str());
                text.append("\nTime: ");
                text.append(now_text.as_str());
                proof {
                    assert(text@ =~= telegram_text(severity, message@, now));
                }
                let post = TelegramPost {
                    url,
                    chat_id: chat_id.clone(),
                    text,
                    parse_mode: String::from_str("Markdown"),
                };
                posts.push(OutboundPost::Telegram(post));
            },
            None => {},
        }
        posts
    }
}

/// After a dispatched alert stamped its key at `t1`, the same key is
/// suppressed at any `now2` inside the cooldown window; with the ensures of
/// `send_alert`, the second identical call therefore produces no outbound
/// post at all.
pub proof fn lemma_second_send_suppressed(
    m: AlertManager,
    sev: Severity,
    msg: Seq<char>,
    t1: u64,
    now2: u64,
)
    requires
        spec_assoc_get(m.last_alerts@, alert_key(sev, msg)) == Some(t1),
        (now2 as int) < t1 + m.cooldown,
    ensures
        spec_suppressed(m, alert_key(sev, msg), now2),
{
}

/// With Telegram credentials missing and a webhook configured, exactly the
/// webhook fires.
pub proof fn lemma_missing_telegram_only_webhook(
    c: AlertsConfig,
    sev: Severity,
    msg: Seq<char>,
    now: u64,
    posts: Seq<OutboundPost>,
)
    requires
        spec_posts(c, sev, msg, now, posts),
        webhook_enabled(c),
        !telegram_enabled(c),
    ensures
        posts.len() == 1,
        is_discord_post(posts[0], c, sev, msg, now),
{
}

} // verus!
