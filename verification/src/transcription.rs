//! Which speech model is loaded. Loading an engine from disk and running it
//! are done by the speech-engine library outside, handed in as closures;
//! keeping track of which model is loaded, loading only when another one is
//! asked for, and refusing to transcribe with none loaded is done here.

use vstd::prelude::*;
use crate::models::check_model_loadable;

verus! {

/// The loaded engine, if any, and the id of the model it was loaded from.
pub struct TranscriptionManager<E> {
    loaded_engine: Option<E>,
    current_model_id: Option<String>,
}

/// What loading a model that is not known answers.
pub open spec fn unknown_model_message(id: Seq<char>) -> Seq<char> {
    "Unknown model: "@ + id
}

/// What loading a known model that is not on disk answers.
pub open spec fn not_downloaded_message(id: Seq<char>) -> Seq<char> {
    "Model "@ + id + " is not downloaded"@
}

/// What transcribing with no model loaded answers.
pub open spec fn no_model_loaded_message() -> Seq<char> {
    "No model loaded"@
}

impl<E> TranscriptionManager<E> {
    #[verifier::type_invariant]
    spec fn engine_matches_id(self) -> bool {
        self.loaded_engine is Some <==> self.current_model_id is Some
    }

    /// The id of the model that is loaded, if one is.
    pub closed spec fn loaded_id(&self) -> Option<Seq<char>> {
        match self.current_model_id {
            Some(id) => Some(id@),
            None => None,
        }
    }

    /// The engine that is loaded, if one is.
    pub closed spec fn engine(&self) -> Option<E> {
        self.loaded_engine
    }

    /// A manager with nothing loaded.
    pub fn new() -> (m: Self)
        ensures
            m.loaded_id() is None,
            m.engine() is None,
    {
        TranscriptionManager { loaded_engine: None, current_model_id: None }
    }

    /// The id of the model that is loaded.
    pub fn get_loaded_model_id(&self) -> (id: Option<&str>)
        ensures
            match id {
                Some(s) => self.loaded_id() == Some(s@),
                None => self.loaded_id() is None,
            },
    {
        match &self.current_model_id {
            Some(s) => Some(s.as_str()),
            None => None,
        }
    }

    /// Drops the loaded engine, if any, and returns the id of the model it
    /// came from.
    pub fn unload_model(&mut self) -> (was: Option<String>)
        ensures
            final(self).loaded_id() is None,
            final(self).engine() is None,
            match was {
                Some(s) => old(self).loaded_id() == Some(s@),
                None => old(self).loaded_id() is None,
            },
    {
        let mut taken = TranscriptionManager { loaded_engine: None, current_model_id: None };
        std::mem::swap(&mut taken, self);
        let TranscriptionManager { loaded_engine: _, current_model_id } = taken;
        current_model_id
    }

    /// Makes `model_id` the loaded model. Nothing happens when it already is.
    /// Otherwise whatever is loaded is dropped first. A model that is not
    /// known (`known`), or known but not on disk (`downloaded`), is then
    /// refused without asking `load`; otherwise `load` is asked for the
    /// engine, and when it fails its message is returned. After any refusal
    /// or failure nothing stays loaded.
    pub fn load_model<F: FnOnce() -> Result<E, String>>(
        &mut self,
        model_id: &str,
        known: bool,
        downloaded: bool,
        load: F,
    ) -> (r: Result<(), String>)
        requires
            known && downloaded ==> load.requires(()),
        ensures
            old(self).loaded_id() == Some(model_id@) ==> r is Ok && final(self).loaded_id() == old(self).loaded_id()
                && final(self).engine() == old(self).engine(),
            old(self).loaded_id() != Some(model_id@) && !known ==> (r matches Err(m) && m@ == unknown_model_message(model_id@))
                && final(self).loaded_id() is None && final(self).engine() is None,
            old(self).loaded_id() != Some(model_id@) && known && !downloaded ==> (r matches Err(m) && m@
                == not_downloaded_message(model_id@)) && final(self).loaded_id() is None && final(self).engine() is None,
            old(self).loaded_id() != Some(model_id@) && known && downloaded ==> exists|res: Result<E, String>|
                #[trigger] load.ensures((), res) && match res {
                    Ok(e) => r is Ok && final(self).loaded_id() == Some(model_id@) && final(self).engine() == Some(e),
                    Err(msg) => r == Err::<(), String>(msg) && final(self).loaded_id() is None && final(self).engine() is None,
                },
    {
        let same = match &self.current_model_id {
            Some(id) => {
                let wanted = model_id.to_owned();
                *id == wanted
            },
            None => false,
        };
        if same {
            return Ok(());
        }
        self.unload_model();
        match check_model_loadable(model_id, known, downloaded) {
            Ok(()) => {},
            Err(e) => {
                return Err(e.message());
            },
        }
        let res = load();
        match res {
            Ok(engine) => {
                *self = TranscriptionManager {
                    loaded_engine: Some(engine),
                    current_model_id: Some(model_id.to_owned()),
                };
                Ok(())
            },
            Err(msg) => Err(msg),
        }
    }

    /// Runs the loaded engine through `run`, which hands the engine back with
    /// its answer. With no model loaded, nothing runs and the answer is
    /// "No model loaded". The model stays loaded whatever the engine answers.
    pub fn transcribe<R, F: FnOnce(E) -> (E, Result<R, String>)>(&mut self, run: F) -> (r: Result<R, String>)
        requires
            old(self).engine() matches Some(e) ==> run.requires((e,)),
        ensures
            final(self).loaded_id() == old(self).loaded_id(),
            old(self).engine() is None ==> (r matches Err(m) && m@ == no_model_loaded_message()) && final(self).engine() is None,
            old(self).engine() matches Some(e) ==> exists|out: (E, Result<R, String>)| #[trigger] run.ensures((e,), out)
                && r == out.1 && final(self).engine() == Some(out.0),
    {
        let mut taken = TranscriptionManager { loaded_engine: None, current_model_id: None };
        std::mem::swap(&mut taken, self);
        proof {
            use_type_invariant(&taken);
        }
        let TranscriptionManager { loaded_engine, current_model_id: id } = taken;
        match loaded_engine {
            None => {
                *self = TranscriptionManager { loaded_engine: None, current_model_id: id };
                Err("No model loaded".to_owned())
            },
            Some(engine) => {
                let (engine, answer) = run(engine);
                *self = TranscriptionManager { loaded_engine: Some(engine), current_model_id: id };
                answer
            },
        }
    }
}

} // verus!
