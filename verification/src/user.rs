use vstd::prelude::*;

verus! {

// The user-management statement surface: the grant levels, secondary-role
// options, and the per-user option items with their effect on a user's
// stored options.

/// The object scope a privilege grant applies to.
#[derive(Debug, PartialEq, Eq)]
pub enum AccountMgrLevel {
    Global,
    Database(Option<String>),
    Table(Option<String>, String),
    UDF(String),
    Stage(String),
}

/// Which secondary roles a session activates.
#[derive(Debug, Clone, Copy, PartialEq, Eq, Structural)]
pub enum SecondaryRolesOption {
    NoneActivated,
    All,
}

/// One `WITH ...` option of a CREATE USER or ALTER USER statement.
#[derive(Debug, PartialEq, Eq)]
pub enum UserOptionItem {
    TenantSetting(bool),
    DefaultRole(String),
    Disabled(bool),
    SetNetworkPolicy(String),
    UnsetNetworkPolicy,
    SetPasswordPolicy(String),
    UnsetPasswordPolicy,
}

/// A user's stored options, as plain values.
#[derive(Debug, PartialEq, Eq, Default)]
pub struct UserOption {
    pub tenant_setting: bool,
    pub default_role: Option<String>,
    pub network_policy: Option<String>,
    pub password_policy: Option<String>,
    pub disabled: Option<bool>,
}

impl UserOptionItem {
    /// Apply this option item to a user's stored options.
    pub fn apply(&self, option: &mut UserOption)
        ensures
            match self {
                UserOptionItem::TenantSetting(enabled) => final(option).tenant_setting == enabled
                    && final(option).default_role == old(option).default_role && final(option).network_policy == old(option).network_policy && final(option).password_policy
                    == old(option).password_policy && final(option).disabled == old(option).disabled,
                UserOptionItem::DefaultRole(v) => final(option).default_role == Some(*v) && final(option).tenant_setting == old(option).tenant_setting
                    && final(option).network_policy == old(option).network_policy && final(option).password_policy == old(option).password_policy
                    && final(option).disabled == old(option).disabled,
                UserOptionItem::SetNetworkPolicy(v) => final(option).network_policy == Some(*v) && final(option).tenant_setting == old(option).tenant_setting
                    && final(option).default_role == old(option).default_role && final(option).password_policy == old(option).password_policy
                    && final(option).disabled == old(option).disabled,
                UserOptionItem::UnsetNetworkPolicy => final(option).network_policy is None && final(option).tenant_setting == old(option).tenant_setting
                    && final(option).default_role == old(option).default_role && final(option).password_policy == old(option).password_policy
                    && final(option).disabled == old(option).disabled,
                UserOptionItem::SetPasswordPolicy(v) => final(option).password_policy == Some(*v) && final(option).tenant_setting == old(option).tenant_setting
                    && final(option).default_role == old(option).default_role && final(option).network_policy == old(option).network_policy
                    && final(option).disabled == old(option).disabled,
                UserOptionItem::UnsetPasswordPolicy => final(option).password_policy is None && final(option).tenant_setting == old(option).tenant_setting
                    && final(option).default_role == old(option).default_role && final(option).network_policy == old(option).network_policy
                    && final(option).disabled == old(option).disabled,
                UserOptionItem::Disabled(v) => final(option).disabled == Some(*v) && final(option).tenant_setting == old(option).tenant_setting
                    && final(option).default_role == old(option).default_role && final(option).network_policy == old(option).network_policy
                    && final(option).password_policy == old(option).password_policy,
            },
    {
        match self {
            UserOptionItem::TenantSetting(enabled) => {
                option.tenant_setting = *enabled;
            },
            UserOptionItem::DefaultRole(v) => {
                option.default_role = Some(v.clone());
            },
            UserOptionItem::SetNetworkPolicy(v) => {
                option.network_policy = Some(v.clone());
            },
            UserOptionItem::UnsetNetworkPolicy => {
                option.network_policy = None;
            },
            UserOptionItem::SetPasswordPolicy(v) => {
                option.password_policy = Some(v.clone());
            },
            UserOptionItem::UnsetPasswordPolicy => {
                option.password_policy = None;
            },
            UserOptionItem::Disabled(v) => {
                option.disabled = Some(*v);
            },
        }
    }
}

/// The authentication part of a CREATE USER or ALTER USER statement.
#[derive(Debug, PartialEq, Eq, Default)]
pub struct AuthOption {
    pub auth_type: Option<String>,
    pub password: Option<String>,
}

} // verus!
