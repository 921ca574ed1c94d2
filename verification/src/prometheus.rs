//! The configuration file of the metrics server.
use vstd::prelude::*;
use vstd::string::StringExecFns;

use crate::text::{
    decimal_text, is_list, join_strings, joined, joined_pieces_are_a_list, list_parts_occur,
    push_decimal, stands_at, texts,
};

verus! {

/// A node that offers metrics on a port of its own.
#[derive(Clone, Debug)]
pub struct ExporterNode {
    pub address: String,
    pub exporter_port: u16,
}

/// A compute node.
pub type ComputeNodeConfig = ExporterNode;

/// A meta node.
pub type MetaNodeConfig = ExporterNode;

/// A compactor.
pub type CompactorConfig = ExporterNode;

/// An object store, which offers metrics on its only port.
#[derive(Clone, Debug)]
pub struct MinioConfig {
    pub address: String,
    pub port: u16,
}

/// What the configuration file is made of.
#[derive(Clone, Debug)]
pub struct PrometheusConfig {
    pub address: String,
    pub port: u16,
    pub provide_compute_node: Option<Vec<ComputeNodeConfig>>,
    pub provide_meta_node: Option<Vec<MetaNodeConfig>>,
    pub provide_minio: Option<Vec<MinioConfig>>,
    pub provide_compactor: Option<Vec<CompactorConfig>>,
}

/// Writes the configuration file.
pub struct PrometheusGen;

/// A target: address and port, in quotes.
pub open spec fn target(address: Seq<char>, port: u16) -> Seq<char> {
    "\""@ + address + ":"@ + decimal_text(port as nat) + "\""@
}

/// The targets of nodes, in order, with commas between them.
pub open spec fn exporter_targets(nodes: Seq<ExporterNode>) -> Seq<char> {
    joined(nodes.map_values(|n: ExporterNode| target(n.address@, n.exporter_port)), ","@)
}

/// The targets of object stores, in order, with commas between them.
pub open spec fn minio_targets(nodes: Seq<MinioConfig>) -> Seq<char> {
    joined(nodes.map_values(|n: MinioConfig| target(n.address@, n.port)), ","@)
}

/// Everything up to the host that runs the server.
pub open spec fn before_host() -> Seq<char> {
    "# --- THIS FILE IS AUTO GENERATED BY RISEDEV ---\nglobal:\n  scrape_interval: 1s\n  evaluation_interval: 5s\n\nscrape_configs:\n  - job_name: \"prometheus\"\n    static_configs:\n      - targets: [\""@
}

/// Between the host and the port.
pub open spec fn before_port() -> Seq<char> {
    ":"@
}

/// From the port on to the targets of the compute nodes.
pub open spec fn before_compute_nodes() -> Seq<char> {
    "\"]\n\n  - job_name: compute-job\n    static_configs:\n      - targets: ["@
}

/// On to the targets of the meta nodes.
pub open spec fn before_meta_nodes() -> Seq<char> {
    "]\n\n  - job_name: meta-job\n    static_configs:\n      - targets: ["@
}

/// On to the targets of the object stores.
pub open spec fn before_minio() -> Seq<char> {
    "]\n  \n  - job_name: minio-job\n    metrics_path: /minio/v2/metrics/cluster\n    static_configs:\n    - targets: ["@
}

/// On to the targets of the compactors.
pub open spec fn before_compactors() -> Seq<char> {
    "]\n\n  - job_name: compactor-job\n    static_configs:\n      - targets: ["@
}

/// What follows the last targets.
pub open spec fn after_targets() -> Seq<char> {
    "]\n"@
}

/// The whole file.
pub open spec fn prometheus_yml(config: PrometheusConfig) -> Seq<char> {
    before_host() + config.address@ + before_port() + decimal_text(config.port as nat)
        + before_compute_nodes() + exporter_targets(config.provide_compute_node->0@)
        + before_meta_nodes() + exporter_targets(config.provide_meta_node->0@) + before_minio()
        + minio_targets(config.provide_minio->0@) + before_compactors() + exporter_targets(
        config.provide_compactor->0@,
    ) + after_targets()
}

fn target_of(address: &String, port: u16) -> (r: String)
    ensures
        r@ == target(address@, port),
{
    let mut r = String::from_str("\"");
    r.append(address.as_str());
    r.append(":");
    push_decimal(&mut r, port as u64);
    r.append("\"");
    r
}

fn exporter_targets_of(nodes: &Vec<ExporterNode>) -> (r: String)
    ensures
        r@ == exporter_targets(nodes@),
{
    let mut pieces: Vec<String> = Vec::new();
    let mut i: usize = 0;
    while i < nodes.len()
        invariant
            i <= nodes.len(),
            pieces@.len() == i,
            forall|j: int|
                0 <= j < i ==> (#[trigger] pieces@[j])@ == target(
                    nodes@[j].address@,
                    nodes@[j].exporter_port,
                ),
        decreases nodes.len() - i,
    {
        pieces.push(target_of(&nodes[i].address, nodes[i].exporter_port));
        i = i + 1;
    }
    assert(texts(pieces@) =~= nodes@.map_values(
        |n: ExporterNode| target(n.address@, n.exporter_port),
    ));
    join_strings(&pieces, ",")
}

fn minio_targets_of(nodes: &Vec<MinioConfig>) -> (r: String)
    ensures
        r@ == minio_targets(nodes@),
{
    let mut pieces: Vec<String> = Vec::new();
    let mut i: usize = 0;
    while i < nodes.len()
        invariant
            i <= nodes.len(),
            pieces@.len() == i,
            forall|j: int|
                0 <= j < i ==> (#[trigger] pieces@[j])@ == target(
                    nodes@[j].address@,
                    nodes@[j].port,
                ),
        decreases nodes.len() - i,
    {
        pieces.push(target_of(&nodes[i].address, nodes[i].port));
        i = i + 1;
    }
    assert(texts(pieces@) =~= nodes@.map_values(|n: MinioConfig| target(n.address@, n.port)));
    join_strings(&pieces, ",")
}

/// The nodes that are provided.
fn provided<T>(nodes: &Option<Vec<T>>) -> (r: &Vec<T>)
    requires
        nodes is Some,
    ensures
        *r == nodes->0,
{
    match nodes {
        Some(nodes) => nodes,
        None => vstd::pervasive::unreached(),
    }
}

impl PrometheusGen {
    /// The configuration file. All four kinds of nodes must be provided.
    pub fn gen_prometheus_yml(&self, config: &PrometheusConfig) -> (r: String)
        requires
            config.provide_compute_node is Some,
            config.provide_meta_node is Some,
            config.provide_minio is Some,
            config.provide_compactor is Some,
        ensures
            r@ == prometheus_yml(*config),
    {
        let compute_node_targets = exporter_targets_of(provided(&config.provide_compute_node));
        let meta_node_targets = exporter_targets_of(provided(&config.provide_meta_node));
        let minio_targets = minio_targets_of(provided(&config.provide_minio));
        let compactor_targets = exporter_targets_of(provided(&config.provide_compactor));
        let mut r = String::from_str(
            "# --- THIS FILE IS AUTO GENERATED BY RISEDEV ---\nglobal:\n  scrape_interval: 1s\n  evaluation_interval: 5s\n\nscrape_configs:\n  - job_name: \"prometheus\"\n    static_configs:\n      - targets: [\"",
        );
        r.append(config.address.as_str());
        r.append(":");
        push_decimal(&mut r, config.port as u64);
        r.append(
            "\"]\n\n  - job_name: compute-job\n    static_configs:\n      - targets: [",
        );
        r.append(compute_node_targets.as_str());
        r.append(
            "]\n\n  - job_name: meta-job\n    static_configs:\n      - targets: [",
        );
        r.append(meta_node_targets.as_str());
        r.append(
            "]\n  \n  - job_name: minio-job\n    metrics_path: /minio/v2/metrics/cluster\n    static_configs:\n    - targets: [",
        );
        r.append(minio_targets.as_str());
        r.append(
            "]\n\n  - job_name: compactor-job\n    static_configs:\n      - targets: [",
        );
        r.append(compactor_targets.as_str());
        r.append("]\n");
        r
    }
}

/// `list` is the list of the quoted addresses and ports of nodes, in order, with commas between
/// them.
pub open spec fn lists_nodes(list: Seq<char>, nodes: Seq<(Seq<char>, u16)>) -> bool {
    is_list(
        list,
        Seq::new(
            nodes.len(),
            |i: int| "\""@ + nodes[i].0 + ":"@ + decimal_text(nodes[i].1 as nat) + "\""@,
        ),
        ","@,
    )
}

/// The addresses and ports of nodes.
pub open spec fn exporter_addresses(nodes: Seq<ExporterNode>) -> Seq<(Seq<char>, u16)> {
    Seq::new(nodes.len(), |i: int| (nodes[i].address@, nodes[i].exporter_port))
}

/// The addresses and ports of object stores.
pub open spec fn minio_addresses(nodes: Seq<MinioConfig>) -> Seq<(Seq<char>, u16)> {
    Seq::new(nodes.len(), |i: int| (nodes[i].address@, nodes[i].port))
}

/// The targets of the four jobs, as they stand in the file.
pub struct TargetLists {
    pub compute: Seq<char>,
    pub meta: Seq<char>,
    pub minio: Seq<char>,
    pub compactor: Seq<char>,
}

/// The places at which the sections of the four jobs begin.
pub struct SectionPlaces {
    pub compute: int,
    pub meta: int,
    pub minio: int,
    pub compactor: int,
}

proof fn lemma_stands(text: Seq<char>, a: Seq<char>, part: Seq<char>, b: Seq<char>)
    requires
        text == a + part + b,
    ensures
        stands_at(text, part, a.len() as int),
{
    assert(text.subrange(a.len() as int, (a.len() + part.len()) as int) =~= part);
}

proof fn lemma_regroup(a: Seq<char>, b: Seq<char>, c: Seq<char>)
    ensures
        a + b + c == a + (b + c),
{
    assert(a + b + c =~= a + (b + c));
}

proof fn lemma_sections(
    a: Seq<char>,
    b: Seq<char>,
    c: Seq<char>,
    d: Seq<char>,
    e: Seq<char>,
)
    ensures
        stands_at(a + b + c + d + e, a, 0),
        stands_at(a + b + c + d + e, b, a.len() as int),
        stands_at(a + b + c + d + e, c, (a + b).len() as int),
        stands_at(a + b + c + d + e, d, (a + b + c).len() as int),
        stands_at(a + b + c + d + e, e, (a + b + c + d).len() as int),
{
    let nothing = Seq::<char>::empty();
    let text = a + b + c + d + e;
    lemma_stands(text, a + b + c, d, e);
    assert(text =~= a + b + c + (d + e));
    lemma_stands(text, a + b, c, d + e);
    assert(text =~= a + b + (c + d + e));
    lemma_stands(text, a, b, c + d + e);
    assert(text =~= nothing + a + (b + c + d + e));
    lemma_stands(text, nothing, a, b + c + d + e);
    assert(text =~= a + b + c + d + e + nothing);
    lemma_stands(text, a + b + c + d, e, nothing);
}

proof fn lemma_exporter_list(nodes: Seq<ExporterNode>)
    ensures
        lists_nodes(exporter_targets(nodes), exporter_addresses(nodes)),
{
    let all = exporter_addresses(nodes);
    let parts = Seq::new(
        all.len(),
        |i: int| "\""@ + all[i].0 + ":"@ + decimal_text(all[i].1 as nat) + "\""@,
    );
    assert(nodes.map_values(|n: ExporterNode| target(n.address@, n.exporter_port)) =~= parts);
    joined_pieces_are_a_list(parts, ","@);
}

proof fn lemma_minio_list(nodes: Seq<MinioConfig>)
    ensures
        lists_nodes(minio_targets(nodes), minio_addresses(nodes)),
{
    let all = minio_addresses(nodes);
    let parts = Seq::new(
        all.len(),
        |i: int| "\""@ + all[i].0 + ":"@ + decimal_text(all[i].1 as nat) + "\""@,
    );
    assert(nodes.map_values(|n: MinioConfig| target(n.address@, n.port)) =~= parts);
    joined_pieces_are_a_list(parts, ","@);
}

/// The file has a section for the server itself and then one for each of the four jobs, one after
/// the other and nothing else. The brackets of each job hold the list of exactly the nodes that
/// are provided for it.
pub proof fn each_job_lists_its_nodes(config: PrometheusConfig) -> (r: (
    TargetLists,
    SectionPlaces,
))
    ensures
        ({
            let text = prometheus_yml(config);
            let (lists, places) = r;
            let head = "# --- THIS FILE IS AUTO GENERATED BY RISEDEV ---\nglobal:\n  scrape_interval: 1s\n  evaluation_interval: 5s\n\nscrape_configs:\n  - job_name: \"prometheus\"\n    static_configs:\n      - targets: [\""@
                + config.address@ + ":"@ + decimal_text(config.port as nat);
            let compute = "\"]\n\n  - job_name: compute-job\n    static_configs:\n      - targets: ["@
                + lists.compute;
            let meta = "]\n\n  - job_name: meta-job\n    static_configs:\n      - targets: ["@
                + lists.meta;
            let minio = "]\n  \n  - job_name: minio-job\n    metrics_path: /minio/v2/metrics/cluster\n    static_configs:\n    - targets: ["@
                + lists.minio;
            let compactor = "]\n\n  - job_name: compactor-job\n    static_configs:\n      - targets: ["@
                + lists.compactor + "]\n"@;
            &&& stands_at(text, head, 0)
            &&& places.compute == head.len()
            &&& stands_at(text, compute, places.compute)
            &&& places.meta == places.compute + compute.len()
            &&& stands_at(text, meta, places.meta)
            &&& places.minio == places.meta + meta.len()
            &&& stands_at(text, minio, places.minio)
            &&& places.compactor == places.minio + minio.len()
            &&& stands_at(text, compactor, places.compactor)
            &&& text.len() == places.compactor + compactor.len()
            &&& lists_nodes(lists.compute, exporter_addresses(config.provide_compute_node->0@))
            &&& lists_nodes(lists.meta, exporter_addresses(config.provide_meta_node->0@))
            &&& lists_nodes(lists.minio, minio_addresses(config.provide_minio->0@))
            &&& lists_nodes(lists.compactor, exporter_addresses(config.provide_compactor->0@))
        }),
{
    let text = prometheus_yml(config);
    let lists = TargetLists {
        compute: exporter_targets(config.provide_compute_node->0@),
        meta: exporter_targets(config.provide_meta_node->0@),
        minio: minio_targets(config.provide_minio->0@),
        compactor: exporter_targets(config.provide_compactor->0@),
    };
    lemma_exporter_list(config.provide_compute_node->0@);
    lemma_exporter_list(config.provide_meta_node->0@);
    lemma_minio_list(config.provide_minio->0@);
    lemma_exporter_list(config.provide_compactor->0@);
    let head = before_host() + config.address@ + before_port() + decimal_text(config.port as nat);
    let compute = before_compute_nodes() + lists.compute;
    let meta = before_meta_nodes() + lists.meta;
    let minio = before_minio() + lists.minio;
    let compactor = before_compactors() + lists.compactor + after_targets();
    lemma_regroup(head, before_compute_nodes(), lists.compute);
    lemma_regroup(head + compute, before_meta_nodes(), lists.meta);
    lemma_regroup(head + compute + meta, before_minio(), lists.minio);
    let front = head + compute + meta + minio;
    lemma_regroup(front, before_compactors(), lists.compactor);
    lemma_regroup(front, before_compactors() + lists.compactor, after_targets());
    assert(text == front + compactor);
    lemma_sections(head, compute, meta, minio, compactor);
    let places = SectionPlaces {
        compute: head.len() as int,
        meta: (head + compute).len() as int,
        minio: (head + compute + meta).len() as int,
        compactor: (head + compute + meta + minio).len() as int,
    };
    (lists, places)
}

/// Each node that is provided for a job stands in the list of its targets, as its address and port
/// in quotes.
pub proof fn each_node_is_a_target(
    list: Seq<char>,
    nodes: Seq<(Seq<char>, u16)>,
    i: int,
) -> (at: int)
    requires
        lists_nodes(list, nodes),
        0 <= i < nodes.len(),
    ensures
        stands_at(
            list,
            "\""@ + nodes[i].0 + ":"@ + decimal_text(nodes[i].1 as nat) + "\""@,
            at,
        ),
{
    let parts = Seq::new(
        nodes.len(),
        |i: int| "\""@ + nodes[i].0 + ":"@ + decimal_text(nodes[i].1 as nat) + "\""@,
    );
    list_parts_occur(list, parts, ","@, i)
}

} // verus!
