//! NATS topology configuration rendering.
//!
//! Generates hub and leaf NATS server configuration files with proper JetStream
//! domain settings for the constellation fleet.

use crate::text::{contains, lemma_contains_middle};
use vstd::prelude::*;

verus! {

/// Which NATS config variant to render.
#[derive(Debug, Clone, Copy)]
pub enum ConfigVariant {
    /// Hub config: cloud node, JetStream enabled, leafnode listener.
    Hub,
    /// Leaf config: per-machine, dials the hub, own JetStream domain.
    Leaf,
}

/// Parameters for generating a NATS topology config.
#[derive(Debug, Clone)]
pub struct NatsTopologyConfig {
    /// Which variant to render.
    pub variant: ConfigVariant,
    /// JetStream domain for this node.
    pub js_domain: String,
    /// Hub URL (used in leaf config; e.g. `nats://cloud.example.ts.net:7422`).
    pub hub_url: String,
    /// Path to the credentials file (e.g. `$WM_NATS_CREDS`).
    pub creds_path: String,
}

/// The hub config up to the JetStream domain setting.
pub const HUB_HEAD: &'static str = r#"# constellation-bus: NATS hub configuration
# Install on the cloud hub node (e.g. via Ansible role constellation-cloud).
# JetStream domain "hub" — leaf clients reach hub streams via $JS.hub.API.>

server_name: wm-hub

jetstream {
  "#;

/// The hub config after the JetStream domain setting.
pub const HUB_TAIL: &'static str = r#"
  store_dir: /var/lib/nats/jetstream
}

# Leafnode listener — TLS + per-node credentials enforced.
# Credentials are generated per-node by constellation-cloud's PKI.
leafnodes {
  listen: "0.0.0.0:7422"
  tls {
    cert_file: "$WM_NATS_HUB_TLS_CERT"
    key_file:  "$WM_NATS_HUB_TLS_KEY"
    ca_file:   "$WM_NATS_HUB_CA"
  }
}

# No plaintext credentials in this file.
# Per-node credentials are issued via the hub's PKI and stored in the
# constellation encrypted store (age/sops). Never commit .creds or .nkey files.
authorization {
  # Credentials path references env vars; resolved at daemon startup.
  # Each node's credential scopes its pub/sub to wm.> only.
  users: []  # populated by Ansible from per-node credential inventory
}
"#;

/// The leaf config up to the domain in its opening comment.
pub const LEAF_HEAD: &'static str = r#"# constellation-bus: NATS leaf configuration
# Install on each fleet machine (e.g. via Ansible role constellation-mesh).
# JetStream domain ""#;

/// The leaf config from there up to the JetStream domain setting.
pub const LEAF_SERVER: &'static str = r#"" — change per-machine for isolation.
# Hub streams reachable via: $JS.hub.API.> (domain-qualified prefix)

server_name: wm-leaf-${HOSTNAME}

jetstream {
  "#;

/// The leaf config from the JetStream domain setting up to the hub URL.
pub const LEAF_REMOTE: &'static str = r#"
  store_dir: /var/lib/nats/jetstream
}

# Local client listener — only 127.0.0.1 (loopback).
# wm-busbridge connects here; no remote clients on this port.
listen: "127.0.0.1:4222"

# Leafnode connection to the hub.
# credentials path is resolved at startup from the encrypted store.
leafnodes {
  remotes [
    {
      "#;

/// What stands between the hub URL and the credentials path.
pub const LEAF_BETWEEN: &'static str = "\n      ";

/// The leaf config after the credentials path.
pub const LEAF_TAIL: &'static str = r#"
      tls {
        ca_file: "$WM_NATS_CA"
      }
    }
  ]
}

# No plaintext credentials embedded.
# creds_path above must point to a file extracted from the age/sops store
# at service startup (e.g. via ExecStartPre in the systemd unit).
"#;

/// A setting: a key and a value between quotation marks.
pub open spec fn setting(key: Seq<char>, value: Seq<char>) -> Seq<char> {
    key + ": \""@ + value + "\""@
}

/// The config file of a hub.
pub open spec fn hub_config(domain: Seq<char>) -> Seq<char> {
    HUB_HEAD@ + setting("domain"@, domain) + HUB_TAIL@
}

/// The config file of a leaf.
pub open spec fn leaf_config(domain: Seq<char>, hub_url: Seq<char>, creds: Seq<char>) -> Seq<char> {
    LEAF_HEAD@ + domain + LEAF_SERVER@ + setting("domain"@, domain) + LEAF_REMOTE@ + setting(
        "url"@,
        hub_url,
    ) + LEAF_BETWEEN@ + setting("credentials"@, creds) + LEAF_TAIL@
}

fn append_setting(out: &mut String, key: &str, value: &str)
    ensures
        final(out)@ == old(out)@ + setting(key@, value@),
{
    out.append(key);
    out.append(": \"");
    out.append(value);
    out.append("\"");
    assert(out@ =~= old(out)@ + setting(key@, value@));
}

impl NatsTopologyConfig {
    /// What the config renders to.
    pub open spec fn rendering(&self) -> Seq<char> {
        match self.variant {
            ConfigVariant::Hub => hub_config(self.js_domain@),
            ConfigVariant::Leaf => leaf_config(self.js_domain@, self.hub_url@, self.creds_path@),
        }
    }

    /// Renders the NATS config as a string.
    ///
    /// The hub config enables JetStream with the given domain and opens a
    /// leafnode listener. The leaf config connects to the hub URL using the
    /// credentials file and sets its own JetStream domain.
    ///
    /// No plaintext credentials are embedded: credentials are referenced by path
    /// (e.g. an env var or a path to a file extracted at runtime).
    ///
    /// Hub clients use the domain-qualified API prefix `$JS.hub.API.>` to reach
    /// hub streams from a leaf connection, because JetStream is domain-scoped
    /// across leaf boundaries.
    pub fn render(&self) -> (s: String)
        ensures
            s@ == self.rendering(),
    {
        match self.variant {
            ConfigVariant::Hub => self.render_hub(),
            ConfigVariant::Leaf => self.render_leaf(),
        }
    }

    fn render_hub(&self) -> (s: String)
        ensures
            s@ == hub_config(self.js_domain@),
    {
        let mut out = HUB_HEAD.to_string();
        append_setting(&mut out, "domain", self.js_domain.as_str());
        out.append(HUB_TAIL);
        out
    }

    fn render_leaf(&self) -> (s: String)
        ensures
            s@ == leaf_config(self.js_domain@, self.hub_url@, self.creds_path@),
    {
        let mut out = LEAF_HEAD.to_string();
        out.append(self.js_domain.as_str());
        out.append(LEAF_SERVER);
        append_setting(&mut out, "domain", self.js_domain.as_str());
        out.append(LEAF_REMOTE);
        append_setting(&mut out, "url", self.hub_url.as_str());
        out.append(LEAF_BETWEEN);
        append_setting(&mut out, "credentials", self.creds_path.as_str());
        out.append(LEAF_TAIL);
        out
    }
}

// ─── laws ───────────────────────────────────────────────────────────────────
/// Either config sets the JetStream domain of its node.
pub proof fn every_config_sets_its_domain(c: NatsTopologyConfig)
    ensures
        contains(c.rendering(), setting("domain"@, c.js_domain@)),
{
    let part = setting("domain"@, c.js_domain@);
    match c.variant {
        ConfigVariant::Hub => {
            lemma_contains_middle(HUB_HEAD@, part, HUB_TAIL@);
        },
        ConfigVariant::Leaf => {
            let back = LEAF_REMOTE@ + setting("url"@, c.hub_url@) + LEAF_BETWEEN@ + setting(
                "credentials"@,
                c.creds_path@,
            ) + LEAF_TAIL@;
            let front = LEAF_HEAD@ + c.js_domain@ + LEAF_SERVER@;
            assert(c.rendering() =~= front + part + back);
            lemma_contains_middle(front, part, back);
        },
    }
}

/// A leaf config dials its hub and points at its credentials by path.
pub proof fn leaf_config_dials_its_hub(c: NatsTopologyConfig)
    requires
        c.variant is Leaf,
    ensures
        contains(c.rendering(), setting("url"@, c.hub_url@)),
        contains(c.rendering(), setting("credentials"@, c.creds_path@)),
{
    let url = setting("url"@, c.hub_url@);
    let creds = setting("credentials"@, c.creds_path@);
    let front = LEAF_HEAD@ + c.js_domain@ + LEAF_SERVER@ + setting("domain"@, c.js_domain@)
        + LEAF_REMOTE@;
    assert(c.rendering() =~= front + url + (LEAF_BETWEEN@ + creds + LEAF_TAIL@));
    lemma_contains_middle(front, url, LEAF_BETWEEN@ + creds + LEAF_TAIL@);
    lemma_contains_middle(front + url + LEAF_BETWEEN@, creds, LEAF_TAIL@);
}

/// A hub config holds nothing of the hub URL or the credentials path: it is the
/// same whatever they are.
pub proof fn hub_config_ignores_credentials(a: NatsTopologyConfig, b: NatsTopologyConfig)
    requires
        a.variant is Hub,
        b.variant is Hub,
        a.js_domain@ == b.js_domain@,
    ensures
        a.rendering() == b.rendering(),
{
}

/// The config of a hub in full: its domain is all that it takes.
pub proof fn a_hub_config_in_full(c: NatsTopologyConfig)
    requires
        c.variant is Hub,
    ensures
        c.rendering() == HUB_HEAD@ + "domain"@ + ": \""@ + c.js_domain@ + "\""@ + HUB_TAIL@,
{
    assert(c.rendering() =~= HUB_HEAD@ + "domain"@ + ": \""@ + c.js_domain@ + "\""@ + HUB_TAIL@);
}

/// The config of a leaf in full: its domain, the URL of its hub and the path of its
/// credentials stand between quotation marks in their places.
pub proof fn a_leaf_config_in_full(c: NatsTopologyConfig)
    requires
        c.variant is Leaf,
    ensures
        c.rendering() == LEAF_HEAD@ + c.js_domain@ + LEAF_SERVER@ + "domain"@ + ": \""@
            + c.js_domain@ + "\""@ + LEAF_REMOTE@ + "url"@ + ": \""@ + c.hub_url@ + "\""@
            + LEAF_BETWEEN@ + "credentials"@ + ": \""@ + c.creds_path@ + "\""@ + LEAF_TAIL@,
{
    assert(c.rendering() =~= LEAF_HEAD@ + c.js_domain@ + LEAF_SERVER@ + "domain"@ + ": \""@
        + c.js_domain@ + "\""@ + LEAF_REMOTE@ + "url"@ + ": \""@ + c.hub_url@ + "\""@
        + LEAF_BETWEEN@ + "credentials"@ + ": \""@ + c.creds_path@ + "\""@ + LEAF_TAIL@);
}

} // verus!
