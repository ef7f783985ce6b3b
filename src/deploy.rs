use vstd::prelude::*;

use crate::text::{decimal, push_decimal};

verus! {

/// Settings for exporting a fine-tuned model in the hub's format.
#[derive(Clone, Debug)]
pub struct ExportConfig {
    pub model_path: String,
    pub output_dir: String,
    pub model_name: String,
    pub export_format: String,
    pub include_tokenizer: bool,
    pub push_to_hub: bool,
    pub hub_token: Option<String>,
    pub hub_repo_name: Option<String>,
    pub model_description: String,
}

/// Settings for serving a model over HTTP.
#[derive(Clone, Debug)]
pub struct APIConfig {
    pub model_path: String,
    pub api_name: String,
    pub port: u16,
    pub host: String,
    pub enable_cors: bool,
    pub max_workers: u8,
    pub auth_token: Option<String>,
}

/// Settings for a container image that serves a model.
#[derive(Clone, Debug)]
pub struct DockerConfig {
    pub image_name: String,
    pub tag: String,
    pub base_image: String,
    pub port: u16,
    pub include_cuda: bool,
    pub model_path: String,
}

/// The report of a model export.
pub open spec fn export_report(c: ExportConfig) -> Seq<char> {
    let base = "Model '"@ + c.model_name@ + "' exported successfully to HuggingFace format at '"@
        + c.output_dir@ + "'"@;
    if c.push_to_hub {
        base + "\nModel pushed to HuggingFace Hub: "@ + match c.hub_repo_name {
            Some(r) => r@,
            None => "unknown"@,
        }
    } else {
        base
    }
}

/// Reports the export of the model that `config` describes; a push to the hub
/// names the repository, or "unknown" when none is set.
pub fn export_model_to_huggingface(config: &ExportConfig) -> (r: String)
    ensures
        r@ == export_report(*config),
{
    let mut s = String::from_str("Model '");
    s.append(config.model_name.as_str());
    s.append("' exported successfully to HuggingFace format at '");
    s.append(config.output_dir.as_str());
    s.append("'");
    if config.push_to_hub {
        s.append("\nModel pushed to HuggingFace Hub: ");
        match &config.hub_repo_name {
            Some(r) => s.append(r.as_str()),
            None => s.append("unknown"),
        }
    }
    s
}

/// The report of a generated HTTP endpoint.
pub open spec fn endpoint_report(c: APIConfig, output_dir: Seq<char>) -> Seq<char> {
    "FastAPI endpoint '"@ + c.api_name@ + "' generated successfully at '"@ + output_dir
        + "'\nAPI will run on "@ + c.host@ + ":"@ + decimal(c.port as nat)
}

/// Reports the endpoint generated for `config` under `output_dir`, with the
/// address it will listen on.
pub fn generate_fastapi_endpoint(config: &APIConfig, output_dir: &str) -> (r: String)
    ensures
        r@ == endpoint_report(*config, output_dir@),
{
    let mut s = String::from_str("FastAPI endpoint '");
    s.append(config.api_name.as_str());
    s.append("' generated successfully at '");
    s.append(output_dir);
    s.append("'\nAPI will run on ");
    s.append(config.host.as_str());
    s.append(":");
    push_decimal(&mut s, config.port as u64);
    s
}

/// The report of a generated container deployment.
pub open spec fn docker_report(c: DockerConfig, output_dir: Seq<char>) -> Seq<char> {
    "Docker deployment '"@ + c.image_name@ + ":"@ + c.tag@ + "' generated successfully at '"@
        + output_dir + "'"@
}

/// Reports the container deployment generated for `config` under `output_dir`.
pub fn generate_docker_deployment(config: &DockerConfig, output_dir: &str) -> (r: String)
    ensures
        r@ == docker_report(*config, output_dir@),
{
    let mut s = String::from_str("Docker deployment '");
    s.append(config.image_name.as_str());
    s.append(":");
    s.append(config.tag.as_str());
    s.append("' generated successfully at '");
    s.append(output_dir);
    s.append("'");
    s
}

} // verus!
