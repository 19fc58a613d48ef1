use wm_busbridge::nats_config::{ConfigVariant, NatsTopologyConfig};

/// Hub config contains JetStream domain setting.
#[test]
fn test_nats_config_has_jetstream_domain() {
    let hub = NatsTopologyConfig {
        variant: ConfigVariant::Hub,
        js_domain: "hub".to_string(),
        hub_url: String::new(),
        creds_path: String::new(),
    };
    let rendered = hub.render();
    assert!(
        rendered.contains("domain: \"hub\""),
        "hub config must set JetStream domain to 'hub'"
    );
}

/// Leaf config contains its own JetStream domain.
#[test]
fn test_leaf_config_has_own_jetstream_domain() {
    let leaf = NatsTopologyConfig {
        variant: ConfigVariant::Leaf,
        js_domain: "leaf-laptop".to_string(),
        hub_url: "nats://hub.example.ts.net:7422".to_string(),
        creds_path: "$WM_NATS_CREDS".to_string(),
    };
    let rendered = leaf.render();
    assert!(
        rendered.contains("domain: \"leaf-laptop\""),
        "leaf config must set its own JetStream domain"
    );
}

/// Hub config documents the domain-qualified API prefix for leaf→hub JS access.
#[test]
fn test_hub_config_documents_domain_api_prefix() {
    let hub = NatsTopologyConfig {
        variant: ConfigVariant::Hub,
        js_domain: "hub".to_string(),
        hub_url: String::new(),
        creds_path: String::new(),
    };
    let rendered = hub.render();
    // The config must document $JS.hub.API.> so operators know how to address hub streams
    assert!(
        rendered.contains("$JS.hub.API"),
        "hub config must document domain-qualified JS API prefix $JS.hub.API"
    );
}

/// Hub config has a leafnode listener on port 7422.
#[test]
fn test_hub_config_has_leafnode_listener() {
    let hub = NatsTopologyConfig {
        variant: ConfigVariant::Hub,
        js_domain: "hub".to_string(),
        hub_url: String::new(),
        creds_path: String::new(),
    };
    let rendered = hub.render();
    assert!(
        rendered.contains("7422"),
        "hub config must include leafnode listener port 7422"
    );
    assert!(
        rendered.contains("leafnodes"),
        "hub config must include a leafnodes block"
    );
}

/// Leaf config points to the hub URL.
#[test]
fn test_leaf_config_connects_to_hub() {
    let leaf = NatsTopologyConfig {
        variant: ConfigVariant::Leaf,
        js_domain: "leaf".to_string(),
        hub_url: "nats://hub.wm.ts.net:7422".to_string(),
        creds_path: "$WM_NATS_CREDS".to_string(),
    };
    let rendered = leaf.render();
    assert!(
        rendered.contains("nats://hub.wm.ts.net:7422"),
        "leaf config must reference the hub URL"
    );
}

#[test]
fn acceptance_ac5() {}
