//! Choosing and removing speech models. Which models exist and which are on
//! disk is found out outside; these functions decide what follows.

use vstd::prelude::*;
use vstd::string::*;
use crate::settings::Prefs;

verus! {

/// Why a model could not be made the active one, or loaded.
#[derive(Clone, Debug)]
pub enum ModelError {
    /// No model of this id is known.
    Unknown(String),
    /// The model is known but not on disk.
    NotDownloaded(String),
}

/// What the user is told when a model cannot be chosen.
pub open spec fn model_error_message(e: ModelError) -> Seq<char> {
    match e {
        ModelError::Unknown(id) => "Unknown model: "@ + id@,
        ModelError::NotDownloaded(id) => "Model "@ + id@ + " is not downloaded"@,
    }
}

impl ModelError {
    /// The sentence shown for this error.
    pub fn message(&self) -> (m: String)
        ensures
            m@ == model_error_message(*self),
    {
        match self {
            ModelError::Unknown(id) => {
                let mut m = "Unknown model: ".to_owned();
                m.append(id.as_str());
                m
            },
            ModelError::NotDownloaded(id) => {
                let mut m = "Model ".to_owned();
                m.append(id.as_str());
                m.append(" is not downloaded");
                m
            },
        }
    }
}

/// Makes `model_id` the model dictation uses, if it is on disk
/// (`downloaded`); otherwise the settings stay as they were.
pub fn set_active_model(prefs: &mut Prefs, model_id: String, downloaded: bool) -> (r: Result<(), ModelError>)
    ensures
        downloaded ==> r is Ok && *final(prefs) == (Prefs { active_local_model_id: Some(model_id), ..*old(prefs) }),
        !downloaded ==> (r matches Err(ModelError::NotDownloaded(id)) && id@ == model_id@) && *final(prefs) == *old(prefs),
{
    if !downloaded {
        return Err(ModelError::NotDownloaded(model_id));
    }
    prefs.active_local_model_id = Some(model_id);
    Ok(())
}

/// Whether a model may be read from disk before its engine is loaded: refused
/// when no model of that id is known (`known`), and then when it is not on
/// disk (`downloaded`).
pub fn check_model_loadable(model_id: &str, known: bool, downloaded: bool) -> (r: Result<(), ModelError>)
    ensures
        !known ==> (r matches Err(ModelError::Unknown(id)) && id@ == model_id@),
        known && !downloaded ==> (r matches Err(ModelError::NotDownloaded(id)) && id@ == model_id@),
        known && downloaded ==> r is Ok,
{
    if !known {
        return Err(ModelError::Unknown(model_id.to_owned()));
    }
    if !downloaded {
        return Err(ModelError::NotDownloaded(model_id.to_owned()));
    }
    Ok(())
}

/// A model has to be unloaded before it is deleted when it is the one loaded.
pub fn unload_before_delete(loaded: &Option<String>, model_id: &str) -> (unload: bool)
    ensures
        unload == (loaded matches Some(id) && id@ == model_id@),
{
    match loaded {
        Some(id) => {
            let wanted = model_id.to_owned();
            *id == wanted
        },
        None => false,
    }
}

} // verus!
