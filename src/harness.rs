//! Fresh relays for tests and tools.
use vstd::prelude::*;
use crate::relay::{GenesisConfig, Pallet};
use crate::security::Security;

verus! {

/// Builds a relay on a running system at block 1.
pub struct ExtBuilder {
    pub config: GenesisConfig,
}

impl ExtBuilder {
    /// A builder with the default settings: no confirmations asked, every check on.
    pub fn new() -> (r: ExtBuilder)
        ensures
            r.config.bitcoin_confirmations == 0,
            r.config.parachain_confirmations == 0,
            !r.config.disable_difficulty_check,
            !r.config.disable_inclusion_check,
            !r.config.disable_op_return_check,
    {
        ExtBuilder { config: GenesisConfig::default() }
    }

    /// A relay with the builder's settings that holds no header yet.
    pub fn build(&self) -> (r: Pallet)
        ensures
            r.wf(),
            !r.initialized,
            r.config == self.config,
            r.security.active_block_number == 1,
            !r.security.shutdown,
            !r.security.error_invalid_btc_relay,
            !r.security.error_no_data_btc_relay,
            r.events@.len() == 0,
    {
        Pallet::new(self.config, Security::new())
    }
}

/// Runs `test` on a fresh relay with the default settings, and gives back what it returns.
pub fn run_test<T, R>(test: T) -> (r: R)
    where
        T: FnOnce(Pallet) -> R,
    requires
        forall|p: Pallet| #[trigger] p.wf() && !p.initialized ==> test.requires((p,)),
    ensures
        exists|p: Pallet| p.wf() && !p.initialized && test.ensures((p,), r),
{
    let p = ExtBuilder::new().build();
    test(p)
}

} // verus!
