//! Credentials that a kubeconfig gives either inline or as a file.
use super::kube_config::KubeConfigError;
use crate::outside::{base64_decode, base64_decoded};
use vstd::prelude::*;

verus! {

/// Where a credential is: given inline, or in a file to be read.
#[derive(Debug, Clone)]
pub enum DataOrFile<T> {
    Data(T),
    File(String),
}

/// Where a credential is: the inline text when there is one, else the file.
pub fn data_or_file(data: &Option<String>, file: &Option<String>) -> (r: Result<
    DataOrFile<String>,
    KubeConfigError,
>)
    ensures
        match (data, file) {
            (Some(d), _) => r matches Ok(DataOrFile::Data(x)) && x@ == d@,
            (None, Some(f)) => r matches Ok(DataOrFile::File(x)) && x@ == f@,
            (None, None) => r == Err::<DataOrFile<String>, KubeConfigError>(
                KubeConfigError::MissingDataOrFile,
            ),
        },
{
    match (data, file) {
        (Some(d), _) => Ok(DataOrFile::Data(d.clone())),
        (_, Some(f)) => Ok(DataOrFile::File(f.clone())),
        _ => Err(KubeConfigError::MissingDataOrFile),
    }
}

/// Where a credential is: the bytes the inline base64 text decodes to when there is
/// such a text, else the file.
pub fn data_or_file_with_base64(data: &Option<String>, file: &Option<String>) -> (r: Result<
    DataOrFile<Vec<u8>>,
    KubeConfigError,
>)
    ensures
        match (data, file) {
            (Some(d), _) => match base64_decoded(d@) {
                Some(b) => r matches Ok(DataOrFile::Data(x)) && x@ == b,
                None => r == Err::<DataOrFile<Vec<u8>>, KubeConfigError>(
                    KubeConfigError::InvalidBase64,
                ),
            },
            (None, Some(f)) => r matches Ok(DataOrFile::File(x)) && x@ == f@,
            (None, None) => r == Err::<DataOrFile<Vec<u8>>, KubeConfigError>(
                KubeConfigError::MissingDataOrFile,
            ),
        },
{
    match (data, file) {
        (Some(d), _) => match base64_decode(d.as_str()) {
            Some(b) => Ok(DataOrFile::Data(b)),
            None => Err(KubeConfigError::InvalidBase64),
        },
        (_, Some(f)) => Ok(DataOrFile::File(f.clone())),
        _ => Err(KubeConfigError::MissingDataOrFile),
    }
}

} // verus!
