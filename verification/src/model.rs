//! The record types a listing refresh produces, with their mathematical
//! views.

use vstd::prelude::*;

verus! {

/// How recently a model was touched, derived from the free-text
/// modification column of the listing.
#[derive(Clone, Copy, PartialEq, Eq, Structural, Debug)]
pub enum AgeCategory {
    Recent,
    Moderate,
    Old,
}

/// A capability tag derived from keywords in the model name.
#[derive(Clone, Copy, PartialEq, Eq, Structural, Debug)]
pub enum Capability {
    Text,
    Vision,
    Code,
    Embed,
    Tools,
    Reasoning,
}

/// Usage statistics from a companion web UI; currently never populated,
/// kept for forward compatibility.
#[derive(Clone, Debug)]
pub struct UsageInfo {
    pub usage_count: u32,
    pub last_used: Option<String>,
    pub first_used: Option<String>,
    pub total_tokens: u64,
}

/// The view of `UsageInfo`.
pub ghost struct UsageInfoView {
    pub usage_count: u32,
    pub last_used: Option<Seq<char>>,
    pub first_used: Option<Seq<char>>,
    pub total_tokens: u64,
}

impl View for UsageInfo {
    type V = UsageInfoView;

    open spec fn view(&self) -> UsageInfoView {
        UsageInfoView {
            usage_count: self.usage_count,
            last_used: match self.last_used {
                Some(s) => Some(s@),
                None => None,
            },
            first_used: match self.first_used {
                Some(s) => Some(s@),
                None => None,
            },
            total_tokens: self.total_tokens,
        }
    }
}

/// One model as reported by the runtime's listing, classified.  Created
/// fresh on every refresh and never persisted.
#[derive(Clone, Debug)]
pub struct ModelData {
    pub name: String,
    pub id: String,
    pub size: String,
    pub modified: String,
    pub age_category: AgeCategory,
    pub capabilities: Vec<Capability>,
    pub is_liberated: bool,
    pub is_starred: bool,
    pub is_queued_for_deletion: bool,
    pub is_duplicate: bool,
    pub is_special_variant: bool,
    pub usage_info: Option<UsageInfo>,
}

/// The view of `ModelData`.
pub ghost struct ModelView {
    pub name: Seq<char>,
    pub id: Seq<char>,
    pub size: Seq<char>,
    pub modified: Seq<char>,
    pub age_category: AgeCategory,
    pub capabilities: Seq<Capability>,
    pub is_liberated: bool,
    pub is_starred: bool,
    pub is_queued_for_deletion: bool,
    pub is_duplicate: bool,
    pub is_special_variant: bool,
    pub usage_info: Option<UsageInfoView>,
}

impl View for ModelData {
    type V = ModelView;

    open spec fn view(&self) -> ModelView {
        ModelView {
            name: self.name@,
            id: self.id@,
            size: self.size@,
            modified: self.modified@,
            age_category: self.age_category,
            capabilities: self.capabilities@,
            is_liberated: self.is_liberated,
            is_starred: self.is_starred,
            is_queued_for_deletion: self.is_queued_for_deletion,
            is_duplicate: self.is_duplicate,
            is_special_variant: self.is_special_variant,
            usage_info: match self.usage_info {
                Some(u) => Some(u@),
                None => None,
            },
        }
    }
}

/// The views of a sequence of models.
pub open spec fn models_views(ms: Seq<ModelData>) -> Seq<ModelView> {
    ms.map_values(|m: ModelData| m@)
}

/// The outcome of a batch deletion: which names were removed and which
/// failed, each item independent of the others.
pub struct DeletionResult {
    pub deleted: Vec<String>,
    pub failed: Vec<String>,
}

} // verus!
