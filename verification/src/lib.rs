//! HugeSyslogs: lógica dos testes de desempenho e balanceamento de relay rsyslog.

pub mod arredonda;
pub mod balanceador;
pub mod balanco;
pub mod bytes;
pub mod certs;
pub mod comandos;
pub mod config;
pub mod contagens;
pub mod decimais;
pub mod decimal;
pub mod duracao;
pub mod encontro;
pub mod escritas;
pub mod esperas;
pub mod gerador;
pub mod grafias;
pub mod inteiros;
pub mod invariancias;
pub mod json;
pub mod latencias;
pub mod leitura;
pub mod leituras;
pub mod linhas;
pub mod medidas;
pub mod metricas;
pub mod numerais;
pub mod numeros;
pub mod orquestrador;
pub mod percurso;
pub mod plano;
pub mod podman;
pub mod precisao;
pub mod proporcao;
pub mod quadros;
pub mod reais;
pub mod regras;
pub mod relatorio;
pub mod relatos;
pub mod ritmo;
pub mod rsyslog;
pub mod secoes;
pub mod tabela;
pub mod texto;
pub mod trechos;
