//! The settings kept in the user's configuration file.
use vstd::prelude::*;

use crate::oauth::OAuthAccessToken;

verus! {

/// The contents of the configuration file: the developer credentials and, once the user
/// has authorized the application, the access token and the user's id.
pub struct GoodReadsConfig {
    pub developer_key: String,
    pub developer_secret: String,
    pub access_token: Option<String>,
    pub access_token_secret: Option<String>,
    pub user_id: Option<u32>,
}

impl GoodReadsConfig {
    /// The configuration with the access token and its secret set to those of `token`.
    pub fn with_access_token(self, token: &OAuthAccessToken) -> (c: GoodReadsConfig)
        ensures
            c.developer_key == self.developer_key,
            c.developer_secret == self.developer_secret,
            c.access_token matches Some(t) && t@ == token.token@,
            c.access_token_secret matches Some(t) && t@ == token.token_secret@,
            c.user_id == self.user_id,
    {
        GoodReadsConfig {
            access_token: Some(token.token.clone()),
            access_token_secret: Some(token.token_secret.clone()),
            ..self
        }
    }

    /// The configuration with the user's id set to `user_id`.
    pub fn with_user_id(self, user_id: u32) -> (c: GoodReadsConfig)
        ensures
            c.developer_key == self.developer_key,
            c.developer_secret == self.developer_secret,
            c.access_token == self.access_token,
            c.access_token_secret == self.access_token_secret,
            c.user_id == Some(user_id),
    {
        GoodReadsConfig { user_id: Some(user_id), ..self }
    }
}

} // verus!
