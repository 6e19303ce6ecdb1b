use race_settle::error::ProcessError;

#[test]
fn test_err_no() {
    assert_eq!(ProcessError::InvalidPosition as u32, 0x1C);
}

#[test]
fn codes_follow_the_declaration() {
    assert_eq!(ProcessError::InvalidOwner.code(), 0);
    assert_eq!(ProcessError::InvalidPosition.code(), 0x1C);
    assert_eq!(ProcessError::InvalidSettleVersion.code(), 0x21);
    assert_eq!(ProcessError::UnbalancedGameStake.code(), 0x37);
    assert_eq!(ProcessError::MalformedPlayersRegAccount.code(), 0x3D);
    assert_eq!(ProcessError::InconsistentCredentials.code(), 0x41);
    assert_eq!(ProcessError::InconsistentCredentials as u32, 0x41);
}
