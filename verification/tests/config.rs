//! The configuration: its values, its defaults and the models it names.

use aidev::config::{
    choose_config, effective_user_agent, validate_model_id, version, ChannelConfig, Config,
    ModelConfig, PathEntry, PodmanUserMapping, ProviderConfig, Source,
};
use serde::de::{MapAccess, Visitor};
use serde::{Deserialize, Deserializer};

/// A value of a file, with the entries of a section in their order.
#[derive(Debug)]
enum Item {
    Text(String),
    Number(i64),
    Real(f64),
    Flag(bool),
    Section(Vec<(String, Item)>),
}

struct Reader;

impl<'de> Visitor<'de> for Reader {
    type Value = Item;

    fn expecting(&self, f: &mut std::fmt::Formatter) -> std::fmt::Result {
        f.write_str("a value")
    }

    fn visit_str<E>(self, v: &str) -> Result<Item, E> {
        Ok(Item::Text(v.to_string()))
    }

    fn visit_i64<E>(self, v: i64) -> Result<Item, E> {
        Ok(Item::Number(v))
    }

    fn visit_f64<E>(self, v: f64) -> Result<Item, E> {
        Ok(Item::Real(v))
    }

    fn visit_bool<E>(self, v: bool) -> Result<Item, E> {
        Ok(Item::Flag(v))
    }

    fn visit_map<A: MapAccess<'de>>(self, mut map: A) -> Result<Item, A::Error> {
        let mut entries = Vec::new();
        while let Some(entry) = map.next_entry::<String, Item>()? {
            entries.push(entry);
        }
        Ok(Item::Section(entries))
    }
}

impl<'de> Deserialize<'de> for Item {
    fn deserialize<D: Deserializer<'de>>(d: D) -> Result<Item, D::Error> {
        d.deserialize_any(Reader)
    }
}

impl Item {
    fn text(self) -> Result<String, String> {
        match self {
            Item::Text(s) => Ok(s),
            other => Err(format!("no text: {other:?}")),
        }
    }

    fn number(self) -> Result<u64, String> {
        match self {
            Item::Number(n) if n >= 0 => Ok(n as u64),
            other => Err(format!("no number: {other:?}")),
        }
    }

    fn flag(self) -> Result<bool, String> {
        match self {
            Item::Flag(b) => Ok(b),
            other => Err(format!("no flag: {other:?}")),
        }
    }

    fn section(self) -> Result<Vec<(String, Item)>, String> {
        match self {
            Item::Section(v) => Ok(v),
            other => Err(format!("no section: {other:?}")),
        }
    }
}

fn provider_of(entries: Vec<(String, Item)>) -> Result<ProviderConfig, String> {
    let mut p = ProviderConfig { base_url: String::new(), api_key: None, user_agent: None };
    for (key, value) in entries {
        match key.as_str() {
            "base_url" => p.base_url = value.text()?,
            "api_key" => p.api_key = Some(value.text()?),
            "user_agent" => p.user_agent = Some(value.text()?),
            _ => {}
        }
    }
    Ok(p)
}

fn channel_of(entries: Vec<(String, Item)>) -> Result<ChannelConfig, String> {
    let mut c = ChannelConfig {
        kind: String::new(),
        image: None,
        container: None,
        run_container: None,
        workdir: aidev::config::default_workdir(),
        host_root: None,
        home: None,
    };
    for (key, value) in entries {
        match key.as_str() {
            "type" => c.kind = value.text()?,
            "image" => c.image = Some(value.text()?),
            "container" => c.container = Some(value.text()?),
            "workdir" => c.workdir = value.text()?,
            "host_root" => c.host_root = Some(value.text()?),
            "home" => c.home = Some(value.text()?),
            _ => {}
        }
    }
    Ok(c)
}

fn model_of(value: Item) -> Result<ModelConfig, String> {
    match value {
        Item::Text(id) => Ok(ModelConfig::Plain(validate_model_id(&id)?)),
        other => {
            let mut id = String::new();
            let mut context_window = None;
            for (key, value) in other.section()? {
                match key.as_str() {
                    "id" => id = validate_model_id(&value.text()?)?,
                    "context_window" => context_window = Some(value.number()?),
                    _ => {}
                }
            }
            Ok(ModelConfig::Full { id, context_window })
        }
    }
}

fn mapping_of(name: &str) -> Result<PodmanUserMapping, String> {
    match name {
        "uidmap" => Ok(PodmanUserMapping::Uidmap),
        "keep-id" => Ok(PodmanUserMapping::KeepId),
        other => Err(format!("unknown mapping: {other}")),
    }
}

fn from_str(file: &str) -> Result<Config, String> {
    let whole: Item = toml::from_str(file).map_err(|e| e.to_string())?;
    let mut cfg = Config::default();
    for (key, value) in whole.section()? {
        match key.as_str() {
            "model" => cfg.model = value.text()?,
            "theme" => cfg.theme = value.text()?,
            "max_tool_rounds" => cfg.max_tool_rounds = value.number()?,
            "context_window" => cfg.context_window = value.number()?,
            "compact_keep_turns" => cfg.compact_keep_turns = value.number()? as usize,
            "compact_summary_tokens" => cfg.compact_summary_tokens = value.number()?,
            "compact_auto" => cfg.compact_auto = value.flag()?,
            "default_channel" => cfg.default_channel = Some(value.text()?),
            "provider" => {
                cfg.provider = aidev::table::Table::new();
                for (name, p) in value.section()? {
                    cfg.provider.insert(name, provider_of(p.section()?)?);
                }
            }
            "channel" => {
                for (name, c) in value.section()? {
                    cfg.channels.insert(name, channel_of(c.section()?)?);
                }
            }
            "models" => {
                cfg.models = aidev::table::OrderedTable::new();
                for (name, m) in value.section()? {
                    cfg.models.insert(name, model_of(m)?);
                }
            }
            "path" => {
                for (name, p) in value.section()? {
                    let mut image = None;
                    for (key, value) in p.section()? {
                        if key == "image" {
                            image = Some(value.text()?);
                        }
                    }
                    cfg.paths.insert(name, PathEntry { image });
                }
            }
            "podman" => {
                for (key, value) in value.section()? {
                    if key == "usermapping" {
                        cfg.podman.usermapping = mapping_of(&value.text()?)?;
                    }
                }
            }
            _ => {}
        }
    }
    Ok(cfg)
}

fn test_config() -> Config {
    from_str(
        r#"
        model = "opencode/big-pickle"

        [provider.opencode]
        base_url = "https://opencode.ai/zen/v1"
        api_key  = "public"

        [provider.openai]
        base_url = "https://api.openai.com/v1"
        api_key  = "sk-test"

        [provider.ollama]
        base_url = "http://localhost:11434/v1"

        [models]
        fast = "openai/gpt-4o-mini"

        [models.smart]
        id = "opencode/big-pickle"
        context_window = 131072

        [models.local]
        id = "ollama/llama3"

        [models.code]
        id = "openai/o3"
    "#,
    )
    .expect("Test-Config lesbar")
}

#[test]
fn theme_aus_toml_geparst_und_normalisiert() {
    let cfg: Config = from_str("").expect("leere TOML nutzt Defaults");
    assert_eq!(cfg.theme, "auto", "Default theme=auto");
    let d = cfg.with_defaults();
    assert_eq!(d.theme, "auto");

    for (raw, want) in [("dark", "dark"), ("light", "light"), ("auto", "auto")] {
        let c: Config = from_str(&format!("theme = \"{raw}\"")).expect("TOML lesbar");
        assert_eq!(c.theme, raw);
        assert_eq!(c.with_defaults().theme, want);
    }
    let up: Config = from_str("theme = \"LIGHT\"").expect("TOML lesbar");
    assert_eq!(up.with_defaults().theme, "light");

    let bogus: Config = from_str("theme = \"neon\"").expect("TOML lesbar");
    assert_eq!(bogus.with_defaults().theme, "auto");
    let blank: Config = from_str("theme = \"  \"").expect("TOML lesbar");
    assert_eq!(blank.with_defaults().theme, "auto");
}

#[test]
fn max_tool_runden_hat_default_und_lasst_sich_setzen() {
    let cfg: Config = from_str("").expect("leere TOML nutzt Defaults");
    assert_eq!(cfg.max_tool_rounds, 100, "Default");
    let cfg2: Config = from_str("max_tool_rounds = 4").expect("TOML lesbar");
    assert_eq!(cfg2.max_tool_rounds, 4, "konfigurierbar");
    assert_eq!(cfg2.with_defaults().max_tool_rounds, 4);
    let zero: Config = from_str("max_tool_rounds = 0").expect("TOML lesbar");
    assert_eq!(zero.with_defaults().max_tool_rounds, 100, "0 -> Default");
}

#[test]
fn kanal_aus_toml_geparst() {
    let toml_str = r#"
        default_channel = "build"

        [provider.opencode]
        base_url = "https://example.com/v1"

        [channel.build]
        type = "podman"
        image = "node:22"
        host_root = "/home/me/projekt"
        workdir = "/app"

        [channel.ci]
        type = "podman"
        container = "aidev-ws"
    "#;
    let cfg: Config = from_str(toml_str).expect("TOML lesbar");
    assert_eq!(cfg.default_channel.as_deref(), Some("build"));
    let build = cfg.channels.get("build").unwrap();
    assert_eq!(build.kind, "podman");
    assert_eq!(build.image.as_deref(), Some("node:22"));
    assert_eq!(build.workdir, "/app");
    let ci = cfg.channels.get("ci").unwrap();
    assert_eq!(ci.container.as_deref(), Some("aidev-ws"));
    assert!(ci.image.is_none());
    assert_eq!(ci.workdir, "/app");
    assert_eq!(cfg.timeout_secs, 500, "globaler Default");
}

#[test]
fn kompaktierung_defaults_sind_sinnvoll() {
    let cfg: Config = from_str("").expect("leere TOML nutzt Defaults");
    assert_eq!(cfg.context_window, 200_000);
    assert_eq!(cfg.compact_keep_turns, 3);
    assert_eq!(cfg.compact_summary_tokens, 4_000);
    assert!(cfg.compact_auto);

    let nulldaten: Config =
        from_str("context_window = 0\ncompact_at = 2\ncompact_keep_turns = 0\ncompact_summary_tokens = 0\ncompact_auto = false")
            .expect("TOML lesbar");
    let d = nulldaten.with_defaults();
    assert_eq!(d.context_window, 200_000, "0 -> Default");
    assert_eq!(d.compact_keep_turns, 3, "0 -> Default");
    assert_eq!(d.compact_summary_tokens, 4_000, "0 -> Default");
    assert!(!d.compact_auto, "false bleibt false (kein Default-Zwang)");

    let gesetzt: Config = from_str(
        "context_window = 32000\ncompact_at = 0.9\ncompact_keep_turns = 5\ncompact_summary_tokens = 999\ncompact_auto = false",
    )
    .expect("TOML lesbar");
    assert_eq!(gesetzt.context_window, 32_000);
    assert_eq!(gesetzt.compact_keep_turns, 5);
    assert_eq!(gesetzt.compact_summary_tokens, 999);
    assert!(!gesetzt.compact_auto);
}

#[test]
fn path_entries_aus_toml_geparst() {
    let cfg: Config = from_str("").expect("leere TOML nutzt Defaults");
    assert!(cfg.paths.is_empty(), "Default: leer");

    let toml_str = r#"
        [provider.opencode]
        base_url = "https://example.com/v1"

        [path."/home/me/projekt"]
        image = "node:22"

        [path."/tmp/worktree-test"]
    "#;
    let cfg: Config = from_str(toml_str).expect("TOML lesbar");
    assert_eq!(cfg.paths.len(), 2);
    let proj = cfg.paths.get("/home/me/projekt").unwrap();
    assert_eq!(proj.image.as_deref(), Some("node:22"));
    let tmp = cfg.paths.get("/tmp/worktree-test").unwrap();
    assert!(tmp.image.is_none(), "ohne Image");
}

#[test]
fn podman_usermapping_default_und_werte() {
    let cfg: Config = from_str("").expect("leere TOML");
    assert_eq!(
        cfg.podman.usermapping,
        PodmanUserMapping::Uidmap
    );
    let cfg: Config = from_str(
        r#"
        [podman]
        usermapping = "uidmap"
        "#,
    )
    .expect("TOML lesbar");
    assert_eq!(
        cfg.podman.usermapping,
        PodmanUserMapping::Uidmap
    );
    let cfg: Config = from_str(
        r#"
        [podman]
        usermapping = "keep-id"
        "#,
    )
    .expect("TOML lesbar");
    assert_eq!(
        cfg.podman.usermapping,
        PodmanUserMapping::KeepId
    );
    assert!(from_str(
        r#"
        [podman]
        usermapping = "bogus"
        "#
    )
    .is_err());
}

#[test]
fn modelle_aus_toml_geparst_kurz_und_lang() {
    let cfg = test_config();
    assert_eq!(
        cfg.model_names(),
        vec![
            "fast".to_string(),
            "smart".to_string(),
            "local".to_string(),
            "code".to_string(),
        ],
        "Aliase in config.toml-Reihenfolge"
    );
    assert_eq!(cfg.models.get("fast").unwrap().id(), "openai/gpt-4o-mini", "Kurzschrift");
    assert_eq!(cfg.models.get("fast").unwrap().context_window(), None);
    assert_eq!(cfg.models.get("fast").unwrap().provider_name().as_deref(), Some("openai"));
    assert_eq!(cfg.models.get("fast").unwrap().model_name(), "gpt-4o-mini");

    let smart = cfg.models.get("smart").unwrap();
    assert_eq!(smart.id(), "opencode/big-pickle");
    assert_eq!(smart.context_window(), Some(131_072));
    assert_eq!(smart.provider_name().as_deref(), Some("opencode"));

    let local = cfg.models.get("local").unwrap();
    assert_eq!(local.id(), "ollama/llama3");
    assert_eq!(local.provider_name().as_deref(), Some("ollama"));
}

#[test]
fn resolve_station() {
    let cfg = test_config();

    let ep = cfg.resolve(None).expect("Default-Modell auflösbar");
    assert_eq!(ep.model, "opencode/big-pickle");
    assert_eq!(ep.base_url, "https://opencode.ai/zen/v1");
    assert_eq!(ep.api_key, "public");

    let ep = cfg.resolve(Some("local")).expect("Alias auflösbar");
    assert_eq!(ep.model, "ollama/llama3");
    assert_eq!(ep.base_url, "http://localhost:11434/v1");
    assert_eq!(ep.api_key, "", "Ollama ohne Key");

    let ep = cfg.resolve(Some("smart")).expect("Smart auflösbar");
    assert_eq!(ep.context_window, 131_072);

    let ep = cfg.resolve(Some("fast")).expect("Fast auflösbar");
    assert_eq!(ep.context_window, 200_000);

    assert!(cfg.resolve(Some("nope")).is_err());

    let ep = cfg
        .resolve_id("openai/gpt-4o")
        .expect("Direkte ID auflösbar");
    assert_eq!(ep.base_url, "https://api.openai.com/v1");
    assert_eq!(ep.api_key, "sk-test");

    assert!(cfg.resolve_id("huggingface/llama3").is_err());

    assert!(cfg.resolve_id("gpt-4o").is_err());
}

#[test]
fn model_auswahl_resolved_ueberschreibt_nur_gesetztes() {
    let toml_str = r#"
        model = "opencode/default-m"

        [provider.opencode]
        base_url = "https://opencode.example.com/v1"
        api_key = "global"

        [provider.ollama]
        base_url = "http://localhost:11434/v1"

        [models.fast]
        id = "opencode/qwen-coder"
        context_window = 32000

        [models.local]
        id = "ollama/llama3"
    "#;
    let cfg: Config = from_str(toml_str).expect("TOML lesbar");

    let ep = cfg.resolve(None).expect("resolve");
    assert_eq!(ep.model, "opencode/default-m");
    assert_eq!(ep.base_url, "https://opencode.example.com/v1");

    let ep = cfg.resolve(Some("fast")).expect("resolve fast");
    assert_eq!(ep.model, "opencode/qwen-coder");
    assert_eq!(ep.context_window, 32_000);
    assert_eq!(ep.api_key, "global");

    let ep = cfg.resolve(Some("local")).expect("resolve local");
    assert_eq!(ep.model, "ollama/llama3");
    assert_eq!(ep.api_key, "");
    assert_eq!(ep.context_window, 200_000, "globaler Default");

    assert!(cfg.resolve(Some("nope")).is_err());
}

#[test]
fn default_model_wird_erst_als_alias_aufgeloest_sektion() {
    let toml_str = r#"
        model = "prov/mod"

        [provider.prov]
        base_url = "https://prov.example.com/v1"
        api_key = "key"

        [models.fast]
        id = "prov/other"

        [models.mod]
        id = "prov/bla"
        context_window = 4096
    "#;
    let cfg: Config = from_str(toml_str).expect("TOML lesbar");

    let m = cfg
        .resolve_default_alias()
        .expect("Alias-Treffer für prov/mod");
    assert_eq!(m.provider, "prov");
    assert_eq!(m.alias, "mod");
    assert_eq!(m.server_model, "bla");
    assert_eq!(m.context_window, Some(4096));

    let ep = cfg.resolve(None).expect("resolve Default");
    assert_eq!(ep.model, "prov/mod", "Anzeige: provider/alias");
    assert_eq!(ep.api_model, "bla", "Servername aus dem Alias");
    assert_eq!(ep.base_url, "https://prov.example.com/v1");
    assert_eq!(ep.api_key, "key");
    assert_eq!(ep.context_window, 4096, "context_window aus dem Alias");
}

#[test]
fn default_model_als_alias_nur_mit_voller_id() {
    let invalid = from_str(
        r#"
        model = "prov/mod"

        [provider.prov]
        base_url = "https://prov.example.com/v1"

        [models]
        mod = "bla"
    "#,
    );
    assert!(
        invalid.is_err(),
        "`[models] mod = \"bla\"` ohne '/' muss abgelehnt werden"
    );

    let toml_str = r#"
    model = "prov/mod"

    [provider.prov]
    base_url = "https://prov.example.com/v1"

    [models.mod]
    id = "prov/bla"
"#;
    let cfg: Config = from_str(toml_str).expect("TOML lesbar");
    let m = cfg
        .resolve_default_alias()
        .expect("Alias-Treffer für prov/mod");
    assert_eq!(m.server_model, "bla");
    let ep = cfg.resolve(None).expect("resolve Default");
    assert_eq!(ep.model, "prov/mod");
    assert_eq!(ep.api_model, "bla");
    assert_eq!(ep.base_url, "https://prov.example.com/v1");
}

#[test]
fn model_ids_brauchen_genau_ein_slash() {
    assert!(
        from_str(
            r#"
        [models]
        a = "nur-name"
    "#
        )
        .is_err()
    );

    assert!(
        from_str(
            r#"
        [models]
        a = "prov/name/x"
    "#
        )
        .is_err()
    );

    assert!(
        from_str(
            r#"
        [models]
        a = "/name"
    "#
        )
        .is_err()
    );
    assert!(
        from_str(
            r#"
        [models]
        a = "prov/"
    "#
        )
        .is_err()
    );

    let cfg: Config = from_str(
        r#"
        [models]
        a = "openai/gpt-4o-mini"

        [models.b]
        id = "ollama/llama3"
        context_window = 8192
    "#,
    )
    .expect("gültige IDs");
    assert_eq!(cfg.models.get("a").unwrap().id(), "openai/gpt-4o-mini");
    assert_eq!(cfg.models.get("b").unwrap().id(), "ollama/llama3");
    assert_eq!(cfg.models.get("b").unwrap().context_window(), Some(8192));
}

#[test]
fn default_model_alias_fremder_provider_zaehlt_nicht() {
    let toml_str = r#"
        model = "prov/mod"

        [provider.prov]
        base_url = "https://prov.example.com/v1"

        [models.mod]
        id = "other/bla"
    "#;
    let cfg: Config = from_str(toml_str).expect("TOML lesbar");

    assert!(
        cfg.resolve_default_alias().is_none(),
        "Alias eines anderen Providers wird ignoriert"
    );
    let ep = cfg.resolve(None).expect("resolve Default");
    assert_eq!(ep.model, "prov/mod");
    assert_eq!(ep.api_model, "mod", "Fallback: zweiter Teil ist Servername");
    assert_eq!(ep.base_url, "https://prov.example.com/v1");
}

#[test]
fn default_model_ohne_alias_nutzt_servernamen_und_einstellungen() {
    let toml_str = r#"
        model = "prov/mod"

        [provider.prov]
        base_url = "https://prov.example.com/v1"
        api_key = "key"

        [models.smart]
        id = "prov/mod"
        context_window = 131072
    "#;
    let cfg: Config = from_str(toml_str).expect("TOML lesbar");

    assert!(cfg.resolve_default_alias().is_none());
    let ep = cfg.resolve(None).expect("resolve Default");
    assert_eq!(ep.api_model, "mod", "echter Servername");
    assert_eq!(ep.context_window, 131072, "Einstellungen von prov/mod-Eintrag");
}

#[test]
fn default_model_ist_provider_name() {
    let cfg: Config = from_str("").expect("leere TOML nutzt Defaults");
    assert!(
        cfg.model.contains('/'),
        "Default-Modell muss Provider-Prefix haben: {}",
        cfg.model
    );
}

#[test]
fn default_config_hat_zen_provider_und_pig_pickle_modell() {
    let cfg = Config::default();
    assert_eq!(cfg.model, "zen/big-pickle");
    let zen = cfg
        .provider
        .get("zen")
        .expect("Provider 'zen' muss in Default vorhanden sein");
    assert_eq!(zen.base_url, "https://opencode.ai/zen/v1");
    assert_eq!(zen.api_key.as_deref(), Some("public"));
    assert_eq!(cfg.models.get("pig-pickle").unwrap().id(), "zen/big-pickle");
    assert_eq!(cfg.max_tool_rounds, 100);
    assert_eq!(cfg.timeout_secs, 500);
    let ep = cfg.resolve(None).expect("Default-Modell auflösbar");
    assert_eq!(ep.model, "zen/big-pickle");
    assert_eq!(ep.base_url, "https://opencode.ai/zen/v1");
    assert_eq!(ep.api_key, "public");
}

#[test]
fn user_agent_defaults_zen_und_generisch() {
    let zen = ProviderConfig {
        base_url: "x".into(),
        api_key: None,
        user_agent: None,
    };
    assert_eq!(
        effective_user_agent(&zen, "zen"),
        format!("opencode-compatible aidev/{}", version())
    );
    let other = ProviderConfig {
        base_url: "x".into(),
        api_key: None,
        user_agent: None,
    };
    assert_eq!(
        effective_user_agent(&other, "openai"),
        format!("aidev/{}", version())
    );
    let custom = ProviderConfig {
        base_url: "x".into(),
        api_key: None,
        user_agent: Some("mein-agent/1.0".into()),
    };
    assert_eq!(effective_user_agent(&custom, "zen"), "mein-agent/1.0");
    let blank = ProviderConfig {
        base_url: "x".into(),
        api_key: None,
        user_agent: Some("   ".into()),
    };
    assert_eq!(
        effective_user_agent(&blank, "zen"),
        format!("opencode-compatible aidev/{}", version())
    );
}

#[test]
fn resolve_ubernimmt_provider_user_agent() {
    let mut cfg = Config::default();
    cfg.provider.insert(
        "custom".to_string(),
        ProviderConfig {
            base_url: "https://example.org".into(),
            api_key: None,
            user_agent: Some("speziell/2.0".into()),
        },
    );
    cfg.models.insert(
        "c".to_string(),
        ModelConfig::Plain("custom/modell".to_string()),
    );
    let ep = cfg.resolve(Some("c")).expect("auflösbar");
    assert_eq!(ep.user_agent, "speziell/2.0");
}


#[test]
fn load_with_warnings_sammelt_warnungen_statt_stderr() {
    let (cfg, warnings) = choose_config(vec![
        Source::Invalid {
            path: "/xdg/aidev/config.toml".into(),
            reason: "invalid type: integer `123`, expected a string".into(),
        },
        Source::Missing,
    ]);
    assert_eq!(cfg.model, "zen/big-pickle");
    assert_eq!(cfg.models.get("pig-pickle").unwrap().id(), "zen/big-pickle");
    assert_eq!(warnings.len(), 2, "unlesbar + kein Quelle mehr");
    assert!(warnings[0].contains("unreadable"), "{}", warnings[0]);
    assert!(warnings[0].contains("trying next source"), "{}", warnings[0]);
    assert!(warnings[1].contains("Keine Config gefunden"), "{}", warnings[1]);

    let file = from_str("model = \"openai/gpt-4o\"\ntheme = \"light\"\n").unwrap();
    let (cfg, warnings) = choose_config(vec![Source::Parsed(file)]);
    assert!(warnings.is_empty(), "Erfolgsfall sammelt keine Warnungen");
    assert_eq!(cfg.model, "openai/gpt-4o");
    assert_eq!(cfg.theme, "light");

    let (cfg, warnings) = choose_config(vec![Source::Missing, Source::Missing]);
    assert_eq!(cfg.model, "zen/big-pickle");
    assert_eq!(
        warnings,
        vec!["Keine Config gefunden, nutze Defaults.".to_string()]
    );
}
