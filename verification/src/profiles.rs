//! The built-in model profiles.
use vstd::prelude::*;

verus! {

#[derive(Clone, Copy, Debug, PartialEq, Eq, Structural)]
pub enum ProfileId {
    Default,
    Fast,
    Deep,
    Compact,
}

#[derive(Clone, Debug, PartialEq, Eq)]
pub struct Profile {
    pub id: ProfileId,
    pub provider: String,
    pub model: String,
    pub effort: String,
}

#[verifier::ext_equal]
pub struct ProfileView {
    pub id: ProfileId,
    pub provider: Seq<char>,
    pub model: Seq<char>,
    pub effort: Seq<char>,
}

impl View for Profile {
    type V = ProfileView;

    open spec fn view(&self) -> ProfileView {
        ProfileView {
            id: self.id,
            provider: self.provider@,
            model: self.model@,
            effort: self.effort@,
        }
    }
}

/// The profile behind each name.
pub open spec fn builtin_profile(id: ProfileId) -> ProfileView {
    ProfileView {
        id,
        provider: "openai-compatible"@,
        model: match id {
            ProfileId::Default => "default-model"@,
            ProfileId::Fast => "fast-model"@,
            ProfileId::Deep => "deep-model"@,
            ProfileId::Compact => "compact-model"@,
        },
        effort: match id {
            ProfileId::Default => "balanced"@,
            ProfileId::Fast => "low"@,
            ProfileId::Deep => "high"@,
            ProfileId::Compact => "minimal"@,
        },
    }
}

impl Profile {
    pub fn builtin(id: ProfileId) -> (r: Profile)
        ensures
            r@ == builtin_profile(id),
    {
        let (model, effort) = match id {
            ProfileId::Default => ("default-model", "balanced"),
            ProfileId::Fast => ("fast-model", "low"),
            ProfileId::Deep => ("deep-model", "high"),
            ProfileId::Compact => ("compact-model", "minimal"),
        };
        Profile {
            id,
            provider: "openai-compatible".to_owned(),
            model: model.to_owned(),
            effort: effort.to_owned(),
        }
    }
}

#[derive(Clone, Copy, Debug)]
pub struct ProfileCatalog;

impl ProfileCatalog {
    pub fn get(&self, id: ProfileId) -> (r: Profile)
        ensures
            r@ == builtin_profile(id),
    {
        Profile::builtin(id)
    }
}

} // verus!
