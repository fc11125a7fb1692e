//! Errors of the service layer, with their HTTP status, code and message.
use vstd::prelude::*;

use crate::config::loader::PolicyError;

verus! {

/// An error of the service layer.
#[derive(Debug, Clone)]
pub enum ServiceError {
    Unauthorized,
    Forbidden,
    BadRequest(String),
    PayloadTooLarge,
    SessionNotFound,
    Overloaded,
    DependencyUnavailable,
    VaultUnavailable,
    UpstreamError,
    UpstreamTimeout,
    Internal,
}

/// The HTTP status of an error.
pub open spec fn status_spec(e: ServiceError) -> u16 {
    match e {
        ServiceError::Unauthorized => 401,
        ServiceError::Forbidden => 403,
        ServiceError::BadRequest(_) => 400,
        ServiceError::PayloadTooLarge => 413,
        ServiceError::SessionNotFound => 404,
        ServiceError::Overloaded => 503,
        ServiceError::DependencyUnavailable => 503,
        ServiceError::VaultUnavailable => 503,
        ServiceError::UpstreamError => 502,
        ServiceError::UpstreamTimeout => 504,
        ServiceError::Internal => 500,
    }
}

/// The code of an error.
pub open spec fn code_spec(e: ServiceError) -> Seq<char> {
    match e {
        ServiceError::Unauthorized => "UNAUTHORIZED"@,
        ServiceError::Forbidden => "FORBIDDEN"@,
        ServiceError::BadRequest(_) => "BAD_REQUEST"@,
        ServiceError::PayloadTooLarge => "PAYLOAD_TOO_LARGE"@,
        ServiceError::SessionNotFound => "SESSION_NOT_FOUND"@,
        ServiceError::Overloaded => "OVERLOADED"@,
        ServiceError::DependencyUnavailable => "DEPENDENCY_UNAVAILABLE"@,
        ServiceError::VaultUnavailable => "VAULT_UNAVAILABLE"@,
        ServiceError::UpstreamError => "UPSTREAM_ERROR"@,
        ServiceError::UpstreamTimeout => "UPSTREAM_ERROR"@,
        ServiceError::Internal => "INTERNAL"@,
    }
}

/// The message of an error.
pub open spec fn message_spec(e: ServiceError) -> Seq<char> {
    match e {
        ServiceError::Unauthorized => "Неверный ключ или неизвестная система"@,
        ServiceError::Forbidden => "Доступ запрещён"@,
        ServiceError::BadRequest(m) => m@,
        ServiceError::PayloadTooLarge => "Тело запроса слишком большое"@,
        ServiceError::SessionNotFound => "Сессия не найдена или истекла"@,
        ServiceError::Overloaded => "Сервис перегружен, повторите позже"@,
        ServiceError::DependencyUnavailable => "Зависимость временно недоступна"@,
        ServiceError::VaultUnavailable => "Хранилище масок временно недоступно, повторите запрос позже"@,
        ServiceError::UpstreamError => "Ошибка вышестоящего сервиса"@,
        ServiceError::UpstreamTimeout => "Таймаут вышестоящего сервиса"@,
        ServiceError::Internal => "Внутренняя ошибка"@,
    }
}

impl ServiceError {
    /// The HTTP status.
    pub fn status(&self) -> (r: u16)
        ensures
            r == status_spec(*self),
    {
        match self {
            ServiceError::Unauthorized => 401,
            ServiceError::Forbidden => 403,
            ServiceError::BadRequest(_) => 400,
            ServiceError::PayloadTooLarge => 413,
            ServiceError::SessionNotFound => 404,
            ServiceError::Overloaded => 503,
            ServiceError::DependencyUnavailable => 503,
            ServiceError::VaultUnavailable => 503,
            ServiceError::UpstreamError => 502,
            ServiceError::UpstreamTimeout => 504,
            ServiceError::Internal => 500,
        }
    }

    /// The error code.
    pub fn code(&self) -> (r: &'static str)
        ensures
            r@ == code_spec(*self),
    {
        match self {
            ServiceError::Unauthorized => "UNAUTHORIZED",
            ServiceError::Forbidden => "FORBIDDEN",
            ServiceError::BadRequest(_) => "BAD_REQUEST",
            ServiceError::PayloadTooLarge => "PAYLOAD_TOO_LARGE",
            ServiceError::SessionNotFound => "SESSION_NOT_FOUND",
            ServiceError::Overloaded => "OVERLOADED",
            ServiceError::DependencyUnavailable => "DEPENDENCY_UNAVAILABLE",
            ServiceError::VaultUnavailable => "VAULT_UNAVAILABLE",
            ServiceError::UpstreamError => "UPSTREAM_ERROR",
            ServiceError::UpstreamTimeout => "UPSTREAM_ERROR",
            ServiceError::Internal => "INTERNAL",
        }
    }

    /// The message shown to the caller.
    pub fn message(&self) -> (r: String)
        ensures
            r@ == message_spec(*self),
    {
        match self {
            ServiceError::Unauthorized => "Неверный ключ или неизвестная система".to_string(),
            ServiceError::Forbidden => "Доступ запрещён".to_string(),
            ServiceError::BadRequest(m) => m.clone(),
            ServiceError::PayloadTooLarge => "Тело запроса слишком большое".to_string(),
            ServiceError::SessionNotFound => "Сессия не найдена или истекла".to_string(),
            ServiceError::Overloaded => "Сервис перегружен, повторите позже".to_string(),
            ServiceError::DependencyUnavailable => "Зависимость временно недоступна".to_string(),
            ServiceError::VaultUnavailable => "Хранилище масок временно недоступно, повторите запрос позже".to_string(),
            ServiceError::UpstreamError => "Ошибка вышестоящего сервиса".to_string(),
            ServiceError::UpstreamTimeout => "Таймаут вышестоящего сервиса".to_string(),
            ServiceError::Internal => "Внутренняя ошибка".to_string(),
        }
    }

    /// The error a policy refusal is answered with: an unknown system is unauthorized, a
    /// disabled system or a forbidden route is forbidden.
    pub fn from_policy_error(e: PolicyError) -> (r: ServiceError)
        ensures
            r == match e {
                PolicyError::UnknownSystem => ServiceError::Unauthorized,
                PolicyError::SystemDisabled => ServiceError::Forbidden,
                PolicyError::RouteForbidden => ServiceError::Forbidden,
            },
    {
        match e {
            PolicyError::UnknownSystem => ServiceError::Unauthorized,
            PolicyError::SystemDisabled => ServiceError::Forbidden,
            PolicyError::RouteForbidden => ServiceError::Forbidden,
        }
    }
}

impl From<PolicyError> for ServiceError {
    fn from(e: PolicyError) -> (r: ServiceError) {
        ServiceError::from_policy_error(e)
    }
}

impl vstd::std_specs::convert::FromSpecImpl<PolicyError> for ServiceError {
    open spec fn obeys_from_spec() -> bool {
        true
    }

    open spec fn from_spec(e: PolicyError) -> ServiceError {
        match e {
            PolicyError::UnknownSystem => ServiceError::Unauthorized,
            PolicyError::SystemDisabled => ServiceError::Forbidden,
            PolicyError::RouteForbidden => ServiceError::Forbidden,
        }
    }
}

} // verus!
