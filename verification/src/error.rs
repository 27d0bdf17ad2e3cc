//! What can go wrong, and how it is told to the user.

use vstd::prelude::*;

use crate::text::joined;

verus! {

/// The errors of the installer.
#[derive(Debug, Clone, PartialEq, Eq)]
pub enum ApiError {
    /// The network's gateway, given here, is not that of the car.
    NotHavalHotspot(String),
    GatewayNotFound,
    NotConnected,
    AlreadyConnected,
    RollbackDetected,
    Timeout,
    DownloadFailed,
    /// An input or output operation failed, for the reason given.
    Io(String),
}

impl ApiError {
    /// What the user is told.
    pub open spec fn message_text(self) -> Seq<char> {
        match self {
            ApiError::NotHavalHotspot(gateway) => "Não conectado ao hotspot do Haval (gateway "@
                + gateway@ + " não inicia com '192.168.33.')"@,
            ApiError::GatewayNotFound => "Falha ao obter o gateway da rede"@,
            ApiError::NotConnected => "A conexão Telnet não está estabelecida"@,
            ApiError::AlreadyConnected => "Já está conectado"@,
            ApiError::RollbackDetected =>
            "Rollback detectado durante a verificação de instalação"@,
            ApiError::Timeout => "A resposta esperada não foi recebida a tempo (timeout)"@,
            ApiError::DownloadFailed => "Falha ao baixar o script de instalação"@,
            ApiError::Io(reason) => "Erro de I/O: "@ + reason@,
        }
    }

    /// What the user is told.
    pub fn message(&self) -> (r: String)
        ensures
            r@ == self.message_text(),
    {
        match self {
            ApiError::NotHavalHotspot(gateway) => {
                let start = joined("Não conectado ao hotspot do Haval (gateway ", gateway.as_str());
                joined(start.as_str(), " não inicia com '192.168.33.')")
            },
            ApiError::GatewayNotFound => "Falha ao obter o gateway da rede".to_owned(),
            ApiError::NotConnected => "A conexão Telnet não está estabelecida".to_owned(),
            ApiError::AlreadyConnected => "Já está conectado".to_owned(),
            ApiError::RollbackDetected =>
            "Rollback detectado durante a verificação de instalação".to_owned(),
            ApiError::Timeout => "A resposta esperada não foi recebida a tempo (timeout)".to_owned(),
            ApiError::DownloadFailed => "Falha ao baixar o script de instalação".to_owned(),
            ApiError::Io(reason) => joined("Erro de I/O: ", reason.as_str()),
        }
    }
}

} // verus!
