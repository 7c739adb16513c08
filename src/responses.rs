use vstd::prelude::*;

verus! {

/// Lifetime of a registered service unless the request sets one, in hours.
pub const DEFAULT_SERVICE_TTL_HOURS: u64 = 6;

#[derive(Debug, Clone)]
pub struct CreditBalanceResponse {
    pub balance: u64,
    pub node_id: String,
}

#[derive(Debug, Clone)]
pub struct CircuitInfo {
    pub circuit_id: String,
    pub purpose: String,
    pub state: String,
    pub hops: usize,
    pub age_seconds: u64,
    pub use_count: usize,
}

#[derive(Debug, Clone)]
pub struct ActiveCircuitsResponse {
    pub circuits: Vec<CircuitInfo>,
    pub total: usize,
}

/// An error reported to an API client, with its HTTP status code.
#[derive(Debug, Clone)]
pub struct ErrorResponse {
    pub error: String,
    pub code: u16,
}

impl ErrorResponse {
    pub fn new(message: String, code: u16) -> (r: ErrorResponse)
        ensures
            r.error == message,
            r.code == code,
    {
        ErrorResponse { error: message, code }
    }

    /// Status 500.
    pub fn internal_error(message: String) -> (r: ErrorResponse)
        ensures
            r.error == message,
            r.code == 500,
    {
        ErrorResponse::new(message, 500)
    }

    /// Status 404.
    pub fn not_found(message: String) -> (r: ErrorResponse)
        ensures
            r.error == message,
            r.code == 404,
    {
        ErrorResponse::new(message, 404)
    }
}

#[derive(Debug, Clone)]
pub struct ServiceRegistrationRequest {
    pub local_host: String,
    pub local_port: u16,
    /// Lifetime in hours, 1 to 24.
    pub ttl_hours: u64,
}

#[derive(Debug, Clone)]
pub struct ServiceRegistrationResponse {
    pub anon_address: String,
    pub public_key: String,
    pub intro_points: usize,
    pub expires_at: u64,
}

#[derive(Debug, Clone)]
pub struct ServiceInfo {
    pub anon_address: String,
    pub public_key: String,
    pub intro_points: usize,
    pub created_at: u64,
    pub ttl_seconds: u64,
    pub is_expired: bool,
}

#[derive(Debug, Clone)]
pub struct ServiceListResponse {
    pub services: Vec<ServiceInfo>,
    pub total: usize,
}

} // verus!
