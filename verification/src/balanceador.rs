//! Geração da configuração do balanceador L4 (nginx com o módulo `stream`).
//!
//! Substitui o relay rsyslog quando a flag `--balanceador` é usada. Diferença
//! essencial de comportamento: o relay distribui **por mensagem**, enquanto o
//! balanceador decide **por conexão**, no momento do handshake, e mantém aquele
//! fluxo preso ao mesmo receptor até a conexão morrer.

use vstd::prelude::*;
use vstd::string::*;

use crate::config::{nome_do_receptor, nome_receptor, Config};
use crate::decimal::digitos;
use crate::rsyslog::PORTA_ENTRADA;
use crate::texto::decimal;

verus! {

/// Os `n` primeiros receptores como destinos de um upstream.
pub open spec fn servidores(n: nat, porta: u16) -> Seq<char>
    decreases n,
{
    if n == 0 {
        Seq::empty()
    } else {
        servidores((n - 1) as nat, porta) + ("        server "@ + nome_do_receptor(n) + ":"@
            + digitos(porta as nat) + ";\n"@)
    }
}

/// Um upstream com todos os receptores, escolhidos pelo hash da origem.
pub open spec fn upstream(nome: Seq<char>, comentario: Seq<char>, n: nat, porta: u16) -> Seq<char> {
    "    # "@ + comentario + "\n    upstream "@ + nome
        + " {\n        hash $remote_addr$remote_port;\n"@ + servidores(n, porta) + "    }\n\n"@
}

/// A configuração do balanceador, com os receptores na porta de texto puro.
pub open spec fn conf_do_balanceador(cfg: Config, porta_plain: u16) -> Seq<char> {
    "# Balanceador L4 gerado pelo HugeSyslogs.\nload_module /usr/lib/nginx/modules/ngx_stream_module.so;\n\ndaemon off;\nworker_processes auto;\nerror_log /out/lb-erros.log warn;\npid /tmp/nginx.pid;\n\nevents {\n    worker_connections 8192;\n}\n\nstream {\n"@
        + upstream(
        "receptores_tcp"@,
        "TCP em texto puro"@,
        cfg.receptores.quantidade as nat,
        porta_plain,
    ) + upstream(
        "receptores_udp"@,
        "UDP em texto puro"@,
        cfg.receptores.quantidade as nat,
        porta_plain,
    ) + "    server {\n        listen "@ + digitos(PORTA_ENTRADA as nat)
        + ";\n        proxy_pass receptores_tcp;\n        proxy_timeout 300s;\n    }\n\n    server {\n        listen "@
        + digitos(PORTA_ENTRADA as nat)
        + " udp;\n        proxy_responses 0;\n        proxy_pass receptores_udp;\n        proxy_timeout 60s;\n    }\n}\n"@
}

fn listar_servidores(n: usize, porta: u16) -> (r: String)
    ensures
        r@ == servidores(n as nat, porta),
{
    let mut r = String::new();
    let mut i: usize = 0;
    proof {
        assert(r@ =~= servidores(0, porta));
    }
    while i < n
        invariant
            i <= n,
            r@ == servidores(i as nat, porta),
        decreases n - i,
    {
        i = i + 1;
        let mut linha = "        server ".to_owned();
        linha.append(nome_receptor(i).as_str());
        linha.append(":");
        linha.append(decimal(porta as u128).as_str());
        linha.append(";\n");
        r.append(linha.as_str());
    }
    r
}

fn escrever_upstream(nome: &str, comentario: &str, n: usize, porta: u16) -> (r: String)
    ensures
        r@ == upstream(nome@, comentario@, n as nat, porta),
{
    let mut s = "    # ".to_owned();
    s.append(comentario);
    s.append("\n    upstream ");
    s.append(nome);
    s.append(" {\n        hash $remote_addr$remote_port;\n");
    s.append(listar_servidores(n, porta).as_str());
    s.append("    }\n\n");
    s
}

/// Gera a configuração do nginx em modo L4 puro, sem TLS em nenhuma das pernas.
///
/// O hash usa `$remote_addr$remote_port`. Como o IP e a porta de destino e o
/// protocolo são constantes nesta topologia, três dos cinco elementos da 5-tupla
/// não variam — hashear origem e porta de origem **é** o hash de 5 tuplas aqui.
///
/// `porta_plain` é a porta em que os receptores recebem texto puro.
pub fn conf_nginx(cfg: &Config, porta_plain: u16) -> (r: String)
    ensures
        r@ == conf_do_balanceador(*cfg, porta_plain),
{
    let n = cfg.receptores.quantidade;
    let mut s =
        "# Balanceador L4 gerado pelo HugeSyslogs.\nload_module /usr/lib/nginx/modules/ngx_stream_module.so;\n\ndaemon off;\nworker_processes auto;\nerror_log /out/lb-erros.log warn;\npid /tmp/nginx.pid;\n\nevents {\n    worker_connections 8192;\n}\n\nstream {\n".to_owned();
    // Upstreams separados para TCP e UDP: o nginx não permite reusar o mesmo
    // bloco entre um listener de fluxo e um de datagrama.
    s.append(escrever_upstream("receptores_tcp", "TCP em texto puro", n, porta_plain).as_str());
    s.append(escrever_upstream("receptores_udp", "UDP em texto puro", n, porta_plain).as_str());
    s.append("    server {\n        listen ");
    s.append(decimal(PORTA_ENTRADA as u128).as_str());
    s.append(
        ";\n        proxy_pass receptores_tcp;\n        proxy_timeout 300s;\n    }\n\n    server {\n        listen ",
    );
    s.append(decimal(PORTA_ENTRADA as u128).as_str());
    // Syslog em UDP não responde; sem isso o nginx ficaria esperando resposta.
    s.append(
        " udp;\n        proxy_responses 0;\n        proxy_pass receptores_udp;\n        proxy_timeout 60s;\n    }\n}\n",
    );
    s
}

} // verus!
