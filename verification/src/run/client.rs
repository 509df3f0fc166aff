//! What a model client is built from.
use vstd::prelude::*;
use crate::error::{AppError, ErrorModel};
use crate::models::model_config::{ModelConfig, Wire};
use crate::text::{join3, opt};

verus! {

/// The URL that `url::Url::parse` reads from a text, in the form it is written
/// back, or `None` where the text is no absolute URL.
pub uninterp spec fn url_text(input: Seq<char>) -> Option<Seq<char>>;

/// Calls `url::Url::parse`, whose result [`url_text`] names.
#[verifier::external_body]
fn parse_url(input: &str) -> (r: Option<String>)
    ensures
        match r {
            Some(url) => url_text(input@) == Some(url@),
            None => url_text(input@) is None,
        },
{
    url::Url::parse(input).ok().map(String::from)
}

/// What a client needs besides the key: the protocol and the address.
#[derive(Debug)]
pub struct ClientPlan {
    pub wire: Wire,
    pub base_url: String,
}

impl ClientPlan {
    /// Whether this is what a client for a model is built from.
    pub open spec fn reaches(self, config: ModelConfig) -> bool {
        &&& url_text(config.base_url@) == Some(self.base_url@)
        &&& Wire::named(config.wire@) == Some(self.wire)
    }
}

/// Why no client can be built for a model.
pub open spec fn client_refusal(config: ModelConfig, url: Option<Seq<char>>) -> Option<ErrorModel> {
    if url is None {
        Some(ErrorModel::BadRequest("model "@ + config.alias@ + " has an invalid base_url"@))
    } else if Wire::named(config.wire@) is None {
        Some(ErrorModel::BadRequest("model "@ + config.alias@ + " has an unknown wire"@))
    } else {
        None
    }
}

/// What a client is built from once its address was read as `url`.
pub fn client_at(config: &ModelConfig, url: Option<String>) -> (r: Result<ClientPlan, AppError>)
    ensures
        match r {
            Ok(plan) => client_refusal(*config, opt(url)) is None && url is Some
                && plan.base_url@ == url->0@ && Wire::named(config.wire@) == Some(plan.wire),
            Err(error) => client_refusal(*config, opt(url)) == Some(error@),
        },
{
    let base_url = match url {
        Some(base_url) => base_url,
        None => {
            return Err(
                AppError::BadRequest(
                    join3("model ", config.alias.as_str(), " has an invalid base_url"),
                ),
            );
        },
    };
    match Wire::from_db(config.wire.as_str()) {
        Some(wire) => Ok(ClientPlan { wire, base_url }),
        None => Err(
            AppError::BadRequest(join3("model ", config.alias.as_str(), " has an unknown wire")),
        ),
    }
}

/// What a client for a user's model row is built from.
pub fn build_client(config: &ModelConfig) -> (r: Result<ClientPlan, AppError>)
    ensures
        match r {
            Ok(plan) => client_refusal(*config, url_text(config.base_url@)) is None
                && plan.reaches(*config),
            Err(error) => client_refusal(*config, url_text(config.base_url@)) == Some(error@),
        },
{
    client_at(config, parse_url(config.base_url.as_str()))
}

/// A client is built just where its address can be read and its wire is known,
/// and it speaks that wire at that address.
pub proof fn a_client_reaches_its_model(
    config: ModelConfig,
    url: Option<Seq<char>>,
    plan: ClientPlan,
    wire: Wire,
)
    ensures
        client_refusal(config, url) is None <==> url is Some && (config.wire@ == "openai"@
            || config.wire@ == "anthropic"@),
        plan.reaches(config) && config.wire@ == wire.text() ==> plan.wire == wire,
        plan.reaches(config) ==> url_text(config.base_url@) == Some(plan.base_url@),
{
    crate::models::model_config::a_wire_round_trips(wire);
}

} // verus!
