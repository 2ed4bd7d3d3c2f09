//! The collaborator that provides the ambient block height, the shutdown
//! state and the relay failure flags.
use vstd::prelude::*;

verus! {

/// The error kinds that the security collaborator knows of.
#[derive(Clone, Copy, Debug, PartialEq, Eq, Structural)]
pub enum ErrorCode {
    NoError,
    NoDataBTCRelay,
    InvalidBTCRelay,
    OracleOffline,
    Liquidation,
}

/// The state of the security collaborator as the relay sees it.
#[derive(Clone, Copy, Debug)]
pub struct Security {
    /// Height of this system's own chain.
    pub active_block_number: u32,
    /// Whether the system has shut down.
    pub shutdown: bool,
    /// A relay failure of kind `InvalidBTCRelay` is outstanding.
    pub error_invalid_btc_relay: bool,
    /// A relay failure of kind `NoDataBTCRelay` is outstanding.
    pub error_no_data_btc_relay: bool,
}

impl Security {
    /// A running system at block 1 with no outstanding failure.
    pub fn new() -> (r: Security)
        ensures
            r.active_block_number == 1,
            !r.shutdown,
            !r.error_invalid_btc_relay,
            !r.error_no_data_btc_relay,
    {
        Security {
            active_block_number: 1,
            shutdown: false,
            error_invalid_btc_relay: false,
            error_no_data_btc_relay: false,
        }
    }

    pub fn active_block_number(&self) -> (r: u32)
        ensures
            r == self.active_block_number,
    {
        self.active_block_number
    }

    pub fn is_shutdown(&self) -> (r: bool)
        ensures
            r == self.shutdown,
    {
        self.shutdown
    }

    /// Whether a relay failure of this kind is outstanding.
    pub fn is_parachain_error_set(&self, kind: ErrorCode) -> (r: bool)
        ensures
            r == (kind == ErrorCode::InvalidBTCRelay && self.error_invalid_btc_relay || kind
                == ErrorCode::NoDataBTCRelay && self.error_no_data_btc_relay),
    {
        match kind {
            ErrorCode::InvalidBTCRelay => self.error_invalid_btc_relay,
            ErrorCode::NoDataBTCRelay => self.error_no_data_btc_relay,
            _ => false,
        }
    }

    /// Records a relay failure of this kind; other kinds are ignored.
    pub fn record_relay_failure(&mut self, kind: ErrorCode)
        ensures
            final(self).active_block_number == old(self).active_block_number,
            final(self).shutdown == old(self).shutdown,
            final(self).error_invalid_btc_relay == (old(self).error_invalid_btc_relay || kind
                == ErrorCode::InvalidBTCRelay),
            final(self).error_no_data_btc_relay == (old(self).error_no_data_btc_relay || kind
                == ErrorCode::NoDataBTCRelay),
    {
        match kind {
            ErrorCode::InvalidBTCRelay => {
                self.error_invalid_btc_relay = true;
            },
            ErrorCode::NoDataBTCRelay => {
                self.error_no_data_btc_relay = true;
            },
            _ => {},
        }
    }

    /// Clears both relay failure kinds.
    pub fn clear_relay_failure(&mut self)
        ensures
            final(self).active_block_number == old(self).active_block_number,
            final(self).shutdown == old(self).shutdown,
            !final(self).error_invalid_btc_relay,
            !final(self).error_no_data_btc_relay,
    {
        self.error_invalid_btc_relay = false;
        self.error_no_data_btc_relay = false;
    }
}

} // verus!
